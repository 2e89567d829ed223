//! Coding agents: the sessions that one that names them by project, and Codex, keep of a project,
//! and their own state.

use vstd::prelude::*;
use vstd::slice::slice_subrange;

use crate::attribution::model::{
    plain_claim, put, put_all, AgentNames, Claim, ClaimView, EntryKind, EnvView, EvidenceTier, ResolveEnv,
    UNATTRIBUTED_OWNER,
};
use crate::attribution::paths::{canonical, tree_path};
use crate::attribution::projects::{in_project, put_path, under_project, Project, ProjectView};
use crate::disk::{Disk, DiskView, Listed, NodeKind};
use crate::fspath::{child, file_name, path_of, path_text, stem, stem_of, FilePath};
use crate::seqs::lemma_filter_map_start;
use crate::text::{
    cat2, cat3, chars_of, ends, find_text, has_text, same, starts, str_ends, str_starts, string_of,
    strip_prefix, without_prefix,
};

use super::common::{own, own_claim, shared, shared_claim};
use super::derive::cli_cache;
use super::links::{cwd_at, dir_cwd, read_cwd, read_dir_cwd};
use super::parsers::{encode_claude_project_dir, encoded_dir};
use super::templates::first_of;

verus! {

broadcast use crate::disk::group_asks;

/// How much of a session file of the agent is read.
pub const CLAUDE_HEAD_BYTES: usize = 65536;

/// How much of a session file of Codex is read.
pub const CODEX_HEAD_BYTES: usize = 16384;

/// How many session files of a directory are read.
pub const MAX_JSONL_PER_DIR: usize = 5;

/// How many files of Codex are come to at most.
pub const MAX_CODEX_FILES: usize = 5000;

/// Where the agent keeps the sessions of the projects.
pub open spec fn sessions_in(agent: AgentNames, home: Seq<Seq<char>>) -> Seq<Seq<char>> {
    child(child(home, agent.home_dir@), "projects"@)
}

fn sessions_dir(agent: AgentNames, home: &FilePath) -> (r: FilePath)
    ensures
        r@ == sessions_in(agent, home@),
{
    home.child(agent.home_dir).child("projects")
}

/// Whether a path lies in a project.
pub open spec fn cwd_inside(p: ProjectView, cwd: Seq<char>) -> bool {
    in_project(p, canonical(path_of(cwd)))
}

fn is_cwd_inside(project: &Project, cwd: &str) -> (r: bool)
    ensures
        r == cwd_inside(project@, cwd@),
{
    under_project(&tree_path(&FilePath::from_text(cwd)), project)
}

/// What a directory's entries yield.
pub open spec fn of_entries(
    disk: DiskView,
    dir: Seq<Seq<char>>,
    pick: spec_fn((Seq<char>, NodeKind)) -> Option<ClaimView>,
) -> Seq<ClaimView> {
    match disk.list(dir) {
        Some(entries) => entries.filter_map(pick),
        None => seq![],
    }
}

/// The claim on a directory of sessions: those of a working directory in the project, or, where no
/// working directory is known, one that is called after the project.
pub open spec fn sessions_claim(agent: AgentNames, p: ProjectView, home: Seq<Seq<char>>, disk: DiskView) -> spec_fn(
    (Seq<char>, NodeKind),
) -> Option<ClaimView> {
    |e: (Seq<char>, NodeKind)|
        {
            let dir = child(sessions_in(agent, home), e.0);
            let encoded = encoded_dir(p.root);
            if e.1 != NodeKind::Dir {
                None
            } else {
                match dir_cwd(disk, dir, MAX_JSONL_PER_DIR as nat, CLAUDE_HEAD_BYTES) {
                    Some(cwd) => if cwd_inside(p, cwd) {
                        Some(
                            own(
                                dir,
                                path_text(p.root),
                                EntryKind::AgentState,
                                EvidenceTier::Exact,
                                agent.session_evidence@,
                                agent.sessions_label@,
                            ),
                        )
                    } else {
                        None
                    },
                    None => if e.0 == encoded || starts(e.0, encoded + "-"@) {
                        Some(
                            own(
                                dir,
                                path_text(p.root),
                                EntryKind::AgentState,
                                EvidenceTier::NameMatch,
                                "encoded project path"@,
                                agent.sessions_label@,
                            ),
                        )
                    } else {
                        None
                    },
                }
            }
        }
}

fn make_sessions_claim(agent: AgentNames, project: &Project, entry: &Listed, env: &ResolveEnv, disk: &mut Disk) -> (r: Option<
    Claim,
>)
    requires
        old(disk).wf(),
    ensures
        final(disk).asked(*old(disk)),
        final(disk).holds()
            ==> r.deep_view() == sessions_claim(agent, project@, env@.home, old(disk)@)(entry.deep_view()),
{
    if entry.kind != NodeKind::Dir {
        return None;
    }
    let name = entry.name.as_str();
    let dir = sessions_dir(agent, &env.home).child(name);
    let owner = project.root.text();
    match read_dir_cwd(&dir, MAX_JSONL_PER_DIR, CLAUDE_HEAD_BYTES, env, disk) {
        Some(cwd) => if is_cwd_inside(project, cwd.as_str()) {
            Some(
                own_claim(
                    dir,
                    owner.as_str(),
                    EntryKind::AgentState,
                    EvidenceTier::Exact,
                    agent.session_evidence,
                    agent.sessions_label,
                ),
            )
        } else {
            None
        },
        None => {
            let encoded = encode_claude_project_dir(&project.root);
            if same(name, encoded.as_str()) || str_starts(
                name,
                cat2(encoded.as_str(), "-").as_str(),
            ) {
                Some(
                    own_claim(
                        dir,
                        owner.as_str(),
                        EntryKind::AgentState,
                        EvidenceTier::NameMatch,
                        "encoded project path",
                        agent.sessions_label,
                    ),
                )
            } else {
                None
            }
        },
    }
}

/// The claim on the cache of the agent's command line.
pub open spec fn cli_claims(agent: AgentNames, p: ProjectView, home: Seq<Seq<char>>, disk: DiskView) -> Seq<ClaimView> {
    if disk.present(cli_cache(agent, home, p.root)) {
        seq![
            own(
                cli_cache(agent, home, p.root),
                path_text(p.root),
                EntryKind::AgentState,
                EvidenceTier::Exact,
                agent.cli_cache_label@,
                agent.cli_cache_label@,
            ),
        ]
    } else {
        seq![]
    }
}

/// The claims on the sessions of a project.
pub open spec fn claude_claims_of(agent: AgentNames, p: ProjectView, home: Seq<Seq<char>>, disk: DiskView) -> Seq<
    ClaimView,
> {
    of_entries(disk, sessions_in(agent, home), sessions_claim(agent, p, home, disk)) + cli_claims(agent, p, home, disk)
}

fn put_sessions_claims(agent: AgentNames, project: &Project, env: &ResolveEnv, disk: &mut Disk) -> (r: Vec<Claim>)
    requires
        old(disk).wf(),
    ensures
        final(disk).asked(*old(disk)),
        final(disk).holds() ==> r.deep_view() == of_entries(
            old(disk)@,
            sessions_in(agent, env@.home),
            sessions_claim(agent, project@, env@.home, old(disk)@),
        ),
{
    let ghost facts = disk@;
    let mut out: Vec<Claim> = Vec::new();
    match disk.list(&sessions_dir(agent, &env.home)) {
        Some(entries) => {
            let ghost all = entries.deep_view();
            let ghost pick = sessions_claim(agent, project@, env@.home, facts);
            let mut i: usize = 0;
            proof {
                lemma_filter_map_start(all, pick);
                assert(out.deep_view() =~= all.take(0).filter_map(pick));
            }
            let ghost start = *disk;
            while i < entries.len()
                invariant
                    i <= entries.len(),
                    all == entries.deep_view(),
                    facts == old(disk)@,
                    disk.asked(*old(disk)),
                    disk.holds() ==> start.holds(),
                    pick == sessions_claim(agent, project@, env@.home, facts),
                    disk.holds() ==> out.deep_view() == all.take(i as int).filter_map(pick),
                decreases entries.len() - i,
            {
                proof {
                    assert(all[i as int] == entries@[i as int].deep_view());
                    all.lemma_filter_map_take_succ(pick, i as int);
                }
                if let Some(c) = make_sessions_claim(agent, project, &entries[i], env, disk) {
                    put(&mut out, c);
                }
                assert(disk.holds() ==> out.deep_view() =~= all.take(i + 1).filter_map(pick));
                i = i + 1;
            }
            assert(all.take(i as int) =~= all);
        },
        None => {
            assert(out.deep_view() =~= seq![]);
        },
    }
    out
}

fn claude_claims(agent: AgentNames, project: &Project, env: &ResolveEnv, disk: &mut Disk) -> (r: Vec<Claim>)
    requires
        old(disk).wf(),
    ensures
        final(disk).asked(*old(disk)),
        final(disk).holds()
            ==> r.deep_view() == claude_claims_of(agent, project@, env@.home, old(disk)@),
{
    let mut out = put_sessions_claims(agent, project, env, disk);
    let ghost was = out.deep_view();
    let owner = project.root.text();
    let encoded = encode_claude_project_dir(&project.root);
    let cache = env.home.child("Library/Caches").child(agent.cli_cache).child(encoded.as_str());
    if disk.present(&cache) {
        put(
            &mut out,
            own_claim(
                cache,
                owner.as_str(),
                EntryKind::AgentState,
                EvidenceTier::Exact,
                agent.cli_cache_label,
                agent.cli_cache_label,
            ),
        );
    }
    assert(disk.holds()
        ==> out.deep_view() =~= was + cli_claims(agent, project@, env@.home, old(disk)@));
    out
}

/// The entries of a directory, with their paths.
pub open spec fn nodes_in(disk: DiskView, dir: Seq<Seq<char>>) -> Seq<(Seq<Seq<char>>, NodeKind)> {
    match disk.list(dir) {
        Some(entries) => Seq::new(entries.len(), |i: int| (child(dir, entries[i].0), entries[i].1)),
        None => seq![],
    }
}

/// The files among the nodes that wait and below them, in the order of a walk that goes into each
/// directory where it comes to it. At most `fuel` nodes are come to.
pub open spec fn deep_files(
    disk: DiskView,
    waiting: Seq<(Seq<Seq<char>>, NodeKind)>,
    fuel: nat,
) -> Seq<Seq<Seq<char>>>
    decreases fuel,
{
    if waiting.len() == 0 || fuel == 0 {
        seq![]
    } else {
        let (path, kind) = waiting[0];
        let rest = waiting.skip(1);
        if kind == NodeKind::Dir {
            deep_files(disk, nodes_in(disk, path) + rest, (fuel - 1) as nat)
        } else if kind == NodeKind::File {
            seq![path] + deep_files(disk, rest, (fuel - 1) as nat)
        } else {
            deep_files(disk, rest, (fuel - 1) as nat)
        }
    }
}

/// The nodes that wait, the next one first, where the next one is at the end of the list.
pub open spec fn from_end(s: Seq<(Seq<Seq<char>>, NodeKind)>) -> Seq<(Seq<Seq<char>>, NodeKind)> {
    Seq::new(s.len(), |i: int| s[s.len() - 1 - i])
}

/// A node of the disk that waits to be come to.
pub struct Waiting {
    pub path: FilePath,
    pub kind: NodeKind,
}

impl DeepView for Waiting {
    type V = (Seq<Seq<char>>, NodeKind);

    open spec fn deep_view(&self) -> (Seq<Seq<char>>, NodeKind) {
        (self.path@, self.kind)
    }
}

fn put_nodes(dir: &FilePath, disk: &mut Disk, stack: &mut Vec<Waiting>)
    requires
        old(disk).wf(),
    ensures
        final(disk).asked(*old(disk)),
        final(disk).holds()
            ==> from_end(final(stack).deep_view()) == nodes_in(old(disk)@, dir@) + from_end(
            old(stack).deep_view(),
        ),
{
    let ghost was = from_end(stack.deep_view());
    let ghost want = nodes_in(disk@, dir@);
    match disk.list(dir) {
        Some(entries) => {
            let ghost all = entries.deep_view();
            let n = entries.len();
            let mut i: usize = n;
            assert(disk.holds() ==> from_end(stack.deep_view()) =~= want.skip(n as int) + was);
            while i > 0
                invariant
                    i <= n,
                    n == entries.len(),
                    all == entries.deep_view(),
                    disk.holds()
                        ==> want == Seq::new(all.len(), |i: int| (child(dir@, all[i].0), all[i].1)),
                    disk.holds() ==> from_end(stack.deep_view()) == want.skip(i as int) + was,
                decreases i,
            {
                i = i - 1;
                let ghost before = stack.deep_view();
                proof {
                    assert(all[i as int] == entries@[i as int].deep_view());
                }
                let node = Waiting {
                    path: dir.child(entries[i].name.as_str()),
                    kind: entries[i].kind,
                };
                stack.push(node);
                proof {
                    assert(stack.deep_view() =~= before.push(node.deep_view()));
                    assert(from_end(stack.deep_view()) =~= seq![node.deep_view()] + from_end(
                        before,
                    ));
                    assert(disk.holds()
                        ==> want.skip(i as int) =~= seq![node.deep_view()] + want.skip(i + 1));
                    assert(disk.holds()
                        ==> from_end(stack.deep_view()) =~= want.skip(i as int) + was);
                }
            }
            assert(want.skip(0) =~= want);
        },
        None => {
            assert(disk.holds() ==> from_end(stack.deep_view()) =~= want + was);
        },
    }
}

/// The first `cap` files below a directory, in the order of a walk that goes into each directory
/// where it comes to it.
pub fn walk_in_order(disk: &mut Disk, root: &FilePath, cap: usize) -> (r: Vec<FilePath>)
    requires
        old(disk).wf(),
    ensures
        final(disk).asked(*old(disk)),
        final(disk).holds() ==> r.deep_view() == first_of(
            deep_files(old(disk)@, nodes_in(old(disk)@, root@), u64::MAX as nat),
            cap as nat,
        ),
        r.len() <= cap,
{
    let ghost facts = disk@;
    let ghost want = deep_files(facts, nodes_in(facts, root@), u64::MAX as nat);
    let mut stack: Vec<Waiting> = Vec::new();
    let mut out: Vec<FilePath> = Vec::new();
    let mut fuel: u64 = u64::MAX;
    put_nodes(root, disk, &mut stack);
    proof {
        assert(disk.holds() ==> from_end(stack.deep_view()) =~= nodes_in(facts, root@));
        assert(out.deep_view() + want =~= want);
    }
    while fuel > 0 && stack.len() > 0 && out.len() < cap
        invariant
            facts == old(disk)@,
            disk.asked(*old(disk)),
            out.len() <= cap,
            disk.holds()
                ==> out.deep_view() + deep_files(facts, from_end(stack.deep_view()), fuel as nat) == want,
        decreases fuel,
    {
        let ghost was = out.deep_view();
        let ghost before = stack.deep_view();
        let ghost waiting = from_end(before);
        let node = stack.pop();
        match node {
            Some(node) => {
                proof {
                    assert(stack.deep_view() =~= before.drop_last());
                    assert(waiting[0] == node.deep_view());
                    assert(from_end(stack.deep_view()) =~= waiting.skip(1));
                }
                fuel = fuel - 1;
                match node.kind {
                    NodeKind::Dir => {
                        put_nodes(&node.path, disk, &mut stack);
                    },
                    NodeKind::File => {
                        let ghost rest = deep_files(
                            facts,
                            from_end(stack.deep_view()),
                            fuel as nat,
                        );
                        let ghost p = node.path@;
                        put_path(&mut out, node.path);
                        assert(out.deep_view() + rest =~= was + (seq![p] + rest));
                    },
                    _ => {},
                }
            },
            None => {
                assert(false);
            },
        }
    }
    proof {
        let got = out.deep_view();
        let rest = deep_files(facts, from_end(stack.deep_view()), fuel as nat);
        assert(got.len() == out.len());
        if out.len() == cap {
            assert(disk.holds() ==> want.take(cap as int) =~= got);
            if rest.len() == 0 {
                assert(disk.holds() ==> want =~= got);
            }
        } else {
            assert(from_end(stack.deep_view()).len() == stack.len());
            assert(rest =~= seq![]);
            assert(disk.holds() ==> want =~= got);
        }
    }
    out
}

/// How many bytes UTF-8 takes for a character.
pub open spec fn width(c: char) -> nat {
    if c as u32 <= 0x7f {
        1
    } else if c as u32 <= 0x7ff {
        2
    } else if c as u32 <= 0xffff {
        3
    } else {
        4
    }
}

/// How many characters take exactly the first `n` bytes of a text.
pub open spec fn chars_in(s: Seq<char>, n: nat) -> Option<nat>
    decreases s.len(),
{
    if n == 0 {
        Some(0)
    } else if s.len() == 0 || width(s[0]) > n {
        None
    } else {
        match chars_in(s.skip(1), (n - width(s[0])) as nat) {
            Some(k) => Some(k + 1),
            None => None,
        }
    }
}

fn char_width(c: char) -> (r: usize)
    ensures
        r == width(c),
{
    let n = c as u32;
    if n <= 0x7f {
        1
    } else if n <= 0x7ff {
        2
    } else if n <= 0xffff {
        3
    } else {
        4
    }
}

fn count_chars_in(s: &[char], n: usize) -> (r: Option<usize>)
    ensures
        match chars_in(s@, n as nat) {
            Some(k) => r is Some && r->0 == k && k <= s@.len(),
            None => r is None,
        },
{
    let ghost want = chars_in(s@, n as nat);
    let mut i: usize = 0;
    let mut left: usize = n;
    assert(s@.skip(0) =~= s@);
    while left > 0
        invariant
            i <= s@.len(),
            left <= n,
            want == (match chars_in(s@.skip(i as int), left as nat) {
                Some(k) => Some((k + i) as nat),
                None => None,
            }),
            want == chars_in(s@, n as nat),
        decreases left,
    {
        if i == s.len() {
            return None;
        }
        let w = char_width(s[i]);
        assert(s@.skip(i as int)[0] == s@[i as int]);
        assert(s@.skip(i as int).skip(1) =~= s@.skip(i + 1));
        if w > left {
            return None;
        }
        left = left - w;
        i = i + 1;
    }
    Some(i)
}

/// What a session file is called, without `rollout-` at its front.
pub open spec fn session_stem(path: Seq<Seq<char>>) -> Seq<char> {
    let s = match file_name(path) {
        Some(n) => stem_of(n),
        None => "session"@,
    };
    match without_prefix(s, "rollout-"@) {
        Some(t) => t,
        None => s,
    }
}

/// What a session of Codex is called: the date at the front of its file's name.
pub open spec fn session_label(path: Seq<Seq<char>>) -> Seq<char> {
    let s = session_stem(path);
    "Codex session "@ + match chars_in(s, 10) {
        Some(k) => s.take(k as int),
        None => s,
    }
}

/// What a session of Codex is called: the first ten bytes of its file's name behind `rollout-`,
/// which are its date.
pub fn codex_session_label(path: &FilePath) -> (r: String)
    ensures
        r@ == session_label(path@),
{
    let whole = match path.file_name() {
        Some(n) => stem(n),
        None => "session".to_owned(),
    };
    let c = chars_of(whole.as_str());
    let s = match strip_prefix(c.as_slice(), "rollout-") {
        Some(t) => t,
        None => c.as_slice(),
    };
    assert(s@ =~= session_stem(path@));
    let date = match count_chars_in(s, 10) {
        Some(k) => {
            let front = slice_subrange(s, 0, k);
            assert(front@ =~= s@.take(k as int));
            string_of(front)
        },
        None => string_of(s),
    };
    cat2("Codex session ", date.as_str())
}

/// The claim on a session of Codex whose working directory lies in the project.
pub open spec fn codex_claim(p: ProjectView, disk: DiskView) -> spec_fn(Seq<Seq<char>>) -> Option<
    ClaimView,
> {
    |path: Seq<Seq<char>>|
        match cwd_at(disk, CODEX_HEAD_BYTES)(path) {
            Some(cwd) => if cwd_inside(p, cwd) {
                Some(
                    own(
                        path,
                        path_text(p.root),
                        EntryKind::AgentState,
                        EvidenceTier::Exact,
                        "Codex session cwd"@,
                        session_label(path),
                    ),
                )
            } else {
                None
            },
            None => None,
        }
}

/// Whether a file holds a running record of a session.
pub open spec fn rollout(path: Seq<Seq<char>>) -> bool {
    match file_name(path) {
        Some(n) => starts(n, "rollout-"@) && ends(n, ".jsonl"@),
        None => false,
    }
}

/// The claim on a running record.
pub open spec fn rollout_claim(p: ProjectView, disk: DiskView) -> spec_fn(Seq<Seq<char>>) -> Option<
    ClaimView,
> {
    |path: Seq<Seq<char>>|
        if rollout(path) {
            codex_claim(p, disk)(path)
        } else {
            None
        }
}

fn is_rollout(path: &FilePath) -> (r: bool)
    ensures
        r == rollout(path@),
{
    match path.file_name() {
        Some(n) => str_starts(n, "rollout-") && str_ends(n, ".jsonl"),
        None => false,
    }
}

fn codex_session_claim(project: &Project, path: &FilePath, env: &ResolveEnv, disk: &mut Disk) -> (r: Option<
    Claim,
>)
    requires
        old(disk).wf(),
    ensures
        final(disk).asked(*old(disk)),
        final(disk).holds() ==> r.deep_view() == codex_claim(project@, old(disk)@)(path@),
{
    let cwd = match read_cwd(path, CODEX_HEAD_BYTES, env, disk) {
        Some(c) => c,
        None => {
            return None;
        },
    };
    if !is_cwd_inside(project, cwd.as_str()) {
        return None;
    }
    let owner = project.root.text();
    Some(
        own_claim(
            path.copy(),
            owner.as_str(),
            EntryKind::AgentState,
            EvidenceTier::Exact,
            "Codex session cwd",
            codex_session_label(path).as_str(),
        ),
    )
}

/// The files of Codex's sessions that are come to.
pub open spec fn session_files_of(disk: DiskView, home: Seq<Seq<char>>) -> Seq<Seq<Seq<char>>> {
    first_of(
        deep_files(
            disk,
            nodes_in(disk, child(child(home, ".codex"@), "sessions"@)),
            u64::MAX as nat,
        ),
        MAX_CODEX_FILES as nat,
    )
}

/// The files of Codex's archive that are come to: as many as the sessions leave room for.
pub open spec fn archive_files_of(disk: DiskView, home: Seq<Seq<char>>) -> Seq<Seq<Seq<char>>> {
    first_of(
        deep_files(
            disk,
            nodes_in(disk, child(child(home, ".codex"@), "archived_sessions"@)),
            u64::MAX as nat,
        ),
        (MAX_CODEX_FILES - session_files_of(disk, home).len()) as nat,
    )
}

/// The claims on the Codex sessions of a project.
pub open spec fn codex_claims_of(p: ProjectView, home: Seq<Seq<char>>, disk: DiskView) -> Seq<
    ClaimView,
> {
    session_files_of(disk, home).filter_map(rollout_claim(p, disk)) + archive_files_of(
        disk,
        home,
    ).filter_map(codex_claim(p, disk))
}

fn put_codex_claims(
    project: &Project,
    files: &Vec<FilePath>,
    all_kinds: bool,
    env: &ResolveEnv,
    disk: &mut Disk,
    out: &mut Vec<Claim>,
)
    requires
        old(disk).wf(),
    ensures
        final(disk).asked(*old(disk)),
        final(disk).holds()
            ==> final(out).deep_view() == old(out).deep_view() + files.deep_view().filter_map(
            if all_kinds {
                codex_claim(project@, old(disk)@)
            } else {
                rollout_claim(project@, old(disk)@)
            },
        ),
{
    let ghost facts = disk@;
    let ghost was = out.deep_view();
    let ghost all = files.deep_view();
    let ghost pick = if all_kinds {
        codex_claim(project@, facts)
    } else {
        rollout_claim(project@, facts)
    };
    let mut i: usize = 0;
    proof {
        lemma_filter_map_start(all, pick);
        assert(out.deep_view() =~= was + all.take(0).filter_map(pick));
    }
    while i < files.len()
        invariant
            i <= files.len(),
            all == files.deep_view(),
            facts == old(disk)@,
            disk.asked(*old(disk)),
            pick == (if all_kinds {
                codex_claim(project@, facts)
            } else {
                rollout_claim(project@, facts)
            }),
            disk.holds() ==> out.deep_view() == was + all.take(i as int).filter_map(pick),
        decreases files.len() - i,
    {
        proof {
            assert(all[i as int] == files@[i as int]@);
            all.lemma_filter_map_take_succ(pick, i as int);
        }
        if all_kinds || is_rollout(&files[i]) {
            if let Some(c) = codex_session_claim(project, &files[i], env, disk) {
                put(out, c);
            }
        }
        assert(disk.holds() ==> out.deep_view() =~= was + all.take(i + 1).filter_map(pick));
        i = i + 1;
    }
    assert(all.take(i as int) =~= all);
}

fn codex_claims(project: &Project, env: &ResolveEnv, disk: &mut Disk) -> (r: Vec<Claim>)
    requires
        old(disk).wf(),
    ensures
        final(disk).asked(*old(disk)),
        final(disk).holds() ==> r.deep_view() == codex_claims_of(project@, env@.home, old(disk)@),
{
    let codex = env.home.child(".codex");
    let mut out: Vec<Claim> = Vec::new();
    let running = walk_in_order(disk, &codex.child("sessions"), MAX_CODEX_FILES);
    assert(running.deep_view().len() == running.len());
    let archived = walk_in_order(
        disk,
        &codex.child("archived_sessions"),
        MAX_CODEX_FILES - running.len(),
    );
    put_codex_claims(project, &running, false, env, disk, &mut out);
    put_codex_claims(project, &archived, true, env, disk, &mut out);
    assert(disk.holds() ==> out.deep_view() =~= codex_claims_of(project@, env@.home, old(disk)@));
    out
}

/// The claims of a project on the sessions of coding agents that worked in it.
pub open spec fn agents_claims(p: ProjectView, env: EnvView, disk: DiskView) -> Seq<ClaimView> {
    claude_claims_of(env.agent, p, env.home, disk) + codex_claims_of(p, env.home, disk)
}

/// The claims of a project on the sessions of coding agents that worked in it.
pub fn resolve(project: &Project, env: &ResolveEnv, disk: &mut Disk) -> (r: Vec<Claim>)
    requires
        old(disk).wf(),
    ensures
        final(disk).asked(*old(disk)),
        final(disk).holds() ==> r.deep_view() == agents_claims(project@, env@, old(disk)@),
{
    let mut out = claude_claims(env.agent, project, env, disk);
    put_all(&mut out, codex_claims(project, env, disk));
    out
}

/// The claim on state of the agent that belongs to no project.
pub open spec fn claude_state(agent: AgentNames, home: Seq<Seq<char>>) -> spec_fn((Seq<char>, NodeKind)) -> Option<
    ClaimView,
> {
    |e: (Seq<char>, NodeKind)|
        if e.1 == NodeKind::Dir && e.0 != "projects"@ {
            Some(
                shared(
                    child(child(home, agent.home_dir@), e.0),
                    EntryKind::AgentState,
                    agent.state_evidence@,
                    agent.title@ + " "@ + e.0,
                    "agents"@,
                ),
            )
        } else {
            None
        }
}

/// The claim on state of Codex that belongs to no project.
pub open spec fn codex_state(home: Seq<Seq<char>>) -> spec_fn((Seq<char>, NodeKind)) -> Option<
    ClaimView,
> {
    |e: (Seq<char>, NodeKind)|
        if e.1 == NodeKind::File && (has_text(e.0, ".sqlite"@) || starts(e.0, "logs"@)) {
            Some(
                shared(
                    child(child(home, ".codex"@), e.0),
                    EntryKind::AgentState,
                    "Codex state"@,
                    e.0,
                    "agents"@,
                ),
            )
        } else {
            None
        }
}

/// The claim on sessions whose working directory is gone.
pub open spec fn orphan_claim(agent: AgentNames, home: Seq<Seq<char>>, disk: DiskView) -> spec_fn(
    (Seq<char>, NodeKind),
) -> Option<ClaimView> {
    |e: (Seq<char>, NodeKind)|
        {
            let dir = child(sessions_in(agent, home), e.0);
            if e.1 != NodeKind::Dir {
                None
            } else {
                match dir_cwd(disk, dir, MAX_JSONL_PER_DIR as nat, CLAUDE_HEAD_BYTES) {
                    Some(cwd) => if disk.present(canonical(path_of(cwd))) {
                        None
                    } else {
                        Some(
                            plain_claim(
                                dir,
                                UNATTRIBUTED_OWNER@,
                                EntryKind::AgentState,
                                EvidenceTier::Observed,
                                "session cwd no longer exists: "@ + cwd,
                            ),
                        )
                    },
                    None => None,
                }
            }
        }
}

/// The claims on the state of coding agents that belongs to no project.
pub open spec fn agents_state(env: EnvView, disk: DiskView) -> Seq<ClaimView> {
    let home = env.home;
    of_entries(disk, child(home, env.agent.home_dir@), claude_state(env.agent, home)) + of_entries(
        disk,
        child(home, ".codex"@),
        codex_state(home),
    ) + of_entries(disk, sessions_in(env.agent, home), orphan_claim(env.agent, home, disk))
}

fn put_claude_state(agent: AgentNames, home: &FilePath, disk: &mut Disk, out: &mut Vec<Claim>)
    requires
        old(disk).wf(),
    ensures
        final(disk).asked(*old(disk)),
        final(disk).holds() ==> final(out).deep_view() == old(out).deep_view() + of_entries(
            old(disk)@,
            child(home@, agent.home_dir@),
            claude_state(agent, home@),
        ),
{
    let ghost was = out.deep_view();
    let dir = home.child(agent.home_dir);
    match disk.list(&dir) {
        Some(entries) => {
            let ghost all = entries.deep_view();
            let ghost pick = claude_state(agent, home@);
            let mut i: usize = 0;
            proof {
                lemma_filter_map_start(all, pick);
                assert(out.deep_view() =~= was + all.take(0).filter_map(pick));
            }
            while i < entries.len()
                invariant
                    i <= entries.len(),
                    all == entries.deep_view(),
                    dir@ == child(home@, agent.home_dir@),
                    pick == claude_state(agent, home@),
                    disk.holds() ==> out.deep_view() == was + all.take(i as int).filter_map(pick),
                decreases entries.len() - i,
            {
                proof {
                    assert(all[i as int] == entries@[i as int].deep_view());
                    all.lemma_filter_map_take_succ(pick, i as int);
                }
                let name = entries[i].name.as_str();
                if entries[i].kind == NodeKind::Dir && !same(name, "projects") {
                    put(
                        out,
                        shared_claim(
                            dir.child(name),
                            EntryKind::AgentState,
                            agent.state_evidence,
                            cat3(agent.title, " ", name).as_str(),
                            "agents",
                        ),
                    );
                }
                assert(disk.holds() ==> out.deep_view() =~= was + all.take(i + 1).filter_map(pick));
                i = i + 1;
            }
            assert(all.take(i as int) =~= all);
        },
        None => {
            assert(out.deep_view() =~= was + Seq::<ClaimView>::empty());
        },
    }
}

fn put_codex_state(home: &FilePath, disk: &mut Disk, out: &mut Vec<Claim>)
    requires
        old(disk).wf(),
    ensures
        final(disk).asked(*old(disk)),
        final(disk).holds() ==> final(out).deep_view() == old(out).deep_view() + of_entries(
            old(disk)@,
            child(home@, ".codex"@),
            codex_state(home@),
        ),
{
    let ghost was = out.deep_view();
    let dir = home.child(".codex");
    match disk.list(&dir) {
        Some(entries) => {
            let ghost all = entries.deep_view();
            let ghost pick = codex_state(home@);
            let mut i: usize = 0;
            proof {
                lemma_filter_map_start(all, pick);
                assert(out.deep_view() =~= was + all.take(0).filter_map(pick));
            }
            while i < entries.len()
                invariant
                    i <= entries.len(),
                    all == entries.deep_view(),
                    dir@ == child(home@, ".codex"@),
                    pick == codex_state(home@),
                    disk.holds() ==> out.deep_view() == was + all.take(i as int).filter_map(pick),
                decreases entries.len() - i,
            {
                proof {
                    assert(all[i as int] == entries@[i as int].deep_view());
                    all.lemma_filter_map_take_succ(pick, i as int);
                }
                let name = entries[i].name.as_str();
                let c = chars_of(name);
                let fits = find_text(c.as_slice(), ".sqlite", 0).is_some() || str_starts(
                    name,
                    "logs",
                );
                if entries[i].kind == NodeKind::File && fits {
                    put(
                        out,
                        shared_claim(
                            dir.child(name),
                            EntryKind::AgentState,
                            "Codex state",
                            name,
                            "agents",
                        ),
                    );
                }
                assert(disk.holds() ==> out.deep_view() =~= was + all.take(i + 1).filter_map(pick));
                i = i + 1;
            }
            assert(all.take(i as int) =~= all);
        },
        None => {
            assert(out.deep_view() =~= was + Seq::<ClaimView>::empty());
        },
    }
}

fn make_orphan_claim(agent: AgentNames, entry: &Listed, env: &ResolveEnv, disk: &mut Disk) -> (r: Option<Claim>)
    requires
        old(disk).wf(),
    ensures
        final(disk).asked(*old(disk)),
        final(disk).holds()
            ==> r.deep_view() == orphan_claim(agent, env@.home, old(disk)@)(entry.deep_view()),
{
    if entry.kind != NodeKind::Dir {
        return None;
    }
    let dir = sessions_dir(agent, &env.home).child(entry.name.as_str());
    let cwd = match read_dir_cwd(&dir, MAX_JSONL_PER_DIR, CLAUDE_HEAD_BYTES, env, disk) {
        Some(c) => c,
        None => {
            return None;
        },
    };
    if disk.present(&tree_path(&FilePath::from_text(cwd.as_str()))) {
        return None;
    }
    Some(
        Claim::new(
            dir,
            UNATTRIBUTED_OWNER,
            EntryKind::AgentState,
            EvidenceTier::Observed,
            cat2("session cwd no longer exists: ", cwd.as_str()).as_str(),
        ),
    )
}

fn put_orphans(agent: AgentNames, env: &ResolveEnv, disk: &mut Disk, out: &mut Vec<Claim>)
    requires
        old(disk).wf(),
    ensures
        final(disk).asked(*old(disk)),
        final(disk).holds() ==> final(out).deep_view() == old(out).deep_view() + of_entries(
            old(disk)@,
            sessions_in(agent, env@.home),
            orphan_claim(agent, env@.home, old(disk)@),
        ),
{
    let ghost facts = disk@;
    let ghost was = out.deep_view();
    match disk.list(&sessions_dir(agent, &env.home)) {
        Some(entries) => {
            let ghost all = entries.deep_view();
            let ghost pick = orphan_claim(agent, env@.home, facts);
            let mut i: usize = 0;
            proof {
                lemma_filter_map_start(all, pick);
                assert(out.deep_view() =~= was + all.take(0).filter_map(pick));
            }
            let ghost start = *disk;
            while i < entries.len()
                invariant
                    i <= entries.len(),
                    all == entries.deep_view(),
                    facts == old(disk)@,
                    disk.asked(*old(disk)),
                    disk.holds() ==> start.holds(),
                    pick == orphan_claim(agent, env@.home, facts),
                    disk.holds() ==> out.deep_view() == was + all.take(i as int).filter_map(pick),
                decreases entries.len() - i,
            {
                proof {
                    assert(all[i as int] == entries@[i as int].deep_view());
                    all.lemma_filter_map_take_succ(pick, i as int);
                }
                if let Some(c) = make_orphan_claim(agent, &entries[i], env, disk) {
                    put(out, c);
                }
                assert(disk.holds() ==> out.deep_view() =~= was + all.take(i + 1).filter_map(pick));
                i = i + 1;
            }
            assert(all.take(i as int) =~= all);
        },
        None => {
            assert(out.deep_view() =~= was + Seq::<ClaimView>::empty());
        },
    }
}

/// The claims on the state of coding agents that belongs to no project: their own directories and
/// files, and sessions whose working directory is gone.
pub fn baseline(env: &ResolveEnv, disk: &mut Disk) -> (r: Vec<Claim>)
    requires
        old(disk).wf(),
    ensures
        final(disk).asked(*old(disk)),
        final(disk).holds() ==> r.deep_view() == agents_state(env@, old(disk)@),
{
    let mut out: Vec<Claim> = Vec::new();
    put_claude_state(env.agent, &env.home, disk, &mut out);
    put_codex_state(&env.home, disk, &mut out);
    put_orphans(env.agent, env, disk, &mut out);
    assert(disk.holds() ==> out.deep_view() =~= agents_state(env@, old(disk)@));
    out
}

} // verus!
