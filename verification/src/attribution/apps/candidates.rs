//! Every path that may belong to an app, a formula or a tool.

use vstd::prelude::*;
use vstd::slice::slice_subrange;

use crate::attribution::apps::curated::{
    apple_data_locations, apple_places, cloud_provider, provider_app, PHOTOS_BUNDLE_ID,
};
use crate::attribution::model::{EntryKind, EnvView, ResolveEnv};
use crate::attribution::paths::{node_at, node_in};
use crate::disk::{Disk, DiskView, NodeKind};
use crate::fspath::{child, extension, extension_of, path_of, stem, stem_of, FilePath};
use crate::scan::{DirTree, TreeView};
use crate::text::{
    chars_of, find_char, index_of, same, string_of, strip_suffix, without_suffix,
};

verus! {

broadcast use crate::disk::group_asks;

/// A path that may belong to somebody.
#[derive(Debug)]
pub struct Candidate {
    pub path: FilePath,
    /// The name at the end of the path, without the ending of a known sort of file.
    pub name: String,
    pub parent_kind: EntryKind,
    /// The directory above, where it looks like a vendor's.
    pub vendor: Option<String>,
    pub is_file: bool,
}

/// A path that may belong to somebody, as a value.
#[verifier::ext_equal]
pub struct CandidateView {
    pub path: Seq<Seq<char>>,
    pub name: Seq<char>,
    pub parent_kind: EntryKind,
    pub vendor: Option<Seq<char>>,
    pub is_file: bool,
}

impl View for Candidate {
    type V = CandidateView;

    open spec fn view(&self) -> CandidateView {
        CandidateView {
            path: self.path@,
            name: self.name@,
            parent_kind: self.parent_kind,
            vendor: self.vendor.deep_view(),
            is_file: self.is_file,
        }
    }
}

impl DeepView for Candidate {
    type V = CandidateView;

    open spec fn deep_view(&self) -> CandidateView {
        self@
    }
}

/// The names of the directories in `dir`, as the first tree that has it knows them.
pub open spec fn dirs_in(trees: Seq<TreeView>, dir: Seq<Seq<char>>) -> Seq<Seq<char>> {
    match node_in(trees, dir) {
        Some(node) => Seq::new(node.children.len(), |i: int| node.children[i].name),
        None => seq![],
    }
}

/// The names of the directories in `dir`, as the first tree that has it knows them.
pub fn tree_child_names(trees: &Vec<DirTree>, dir: &FilePath) -> (r: Vec<String>)
    ensures
        r.deep_view() == dirs_in(trees.deep_view(), dir@),
{
    let mut out: Vec<String> = Vec::new();
    match node_at(trees, dir) {
        Some(node) => {
            let ghost want = dirs_in(trees.deep_view(), dir@);
            let mut i: usize = 0;
            while i < node.children.len()
                invariant
                    i <= node.children.len(),
                    want.len() == node.children.len(),
                    want == Seq::new(node@.children.len(), |i: int| node@.children[i].name),
                    out.deep_view() =~= want.take(i as int),
                decreases node.children.len() - i,
            {
                let ghost was = out.deep_view();
                assert(node@.children[i as int] == node.children@[i as int]@);
                let name = node.children[i].name.clone();
                out.push(name);
                assert(out.deep_view() =~= was.push(name@));
                i = i + 1;
            }
            assert(want.take(i as int) =~= want);
            out
        },
        None => {
            assert(out.deep_view() =~= seq![]);
            out
        },
    }
}

/// A directory directly in `hub`.
pub open spec fn dir_candidate(hub: Seq<Seq<char>>, kind: EntryKind, name: Seq<char>) -> CandidateView {
    CandidateView {
        path: child(hub, name),
        name,
        parent_kind: kind,
        vendor: None,
        is_file: false,
    }
}

/// The directories directly in `hub`.
pub open spec fn depth1(trees: Seq<TreeView>, hub: Seq<Seq<char>>, kind: EntryKind) -> Seq<
    CandidateView,
> {
    let names = dirs_in(trees, hub);
    Seq::new(names.len(), |i: int| dir_candidate(hub, kind, names[i]))
}

/// The directories in the directory `vendor` of `hub`.
pub open spec fn depth2(
    trees: Seq<TreeView>,
    hub: Seq<Seq<char>>,
    kind: EntryKind,
    vendor: Seq<char>,
) -> Seq<CandidateView> {
    let dir = child(hub, vendor);
    let names = dirs_in(trees, dir);
    Seq::new(
        names.len(),
        |i: int| CandidateView { vendor: Some(vendor), ..dir_candidate(dir, kind, names[i]) },
    )
}

/// Directories of `hub`, each followed by its own directories unless its name holds a dot, which
/// no vendor's does.
pub open spec fn depth1_and_2(
    trees: Seq<TreeView>,
    hub: Seq<Seq<char>>,
    kind: EntryKind,
    names: Seq<Seq<char>>,
) -> Seq<CandidateView>
    decreases names.len(),
{
    if names.len() == 0 {
        seq![]
    } else {
        let name = names.last();
        depth1_and_2(trees, hub, kind, names.drop_last()) + seq![dir_candidate(hub, kind, name)] + (
        if name.contains('.') {
            seq![]
        } else {
            depth2(trees, hub, kind, name)
        })
    }
}

/// The hidden directories of the home directory that no app owns, or that are looked into.
pub open spec fn skipped_dotdir(name: Seq<char>) -> bool {
    ||| name == ".Trash"@
    ||| name == ".git"@
    ||| name == ".ssh"@
    ||| name == ".DS_Store"@
    ||| name == ".config"@
    ||| name == ".cache"@
    ||| name == ".local"@
}

/// A hidden directory of the home directory.
pub open spec fn dotdir(home: Seq<Seq<char>>) -> spec_fn(Seq<char>) -> Option<CandidateView> {
    |name: Seq<char>|
        if name.len() > 0 && name[0] == '.' && !skipped_dotdir(name) {
            Some(dir_candidate(home, EntryKind::DotDir, name))
        } else {
            None
        }
}

/// How an entry of a directory of files is taken.
pub enum FileHub {
    /// Preference files: they end in `.plist`.
    Plists,
    /// Cookie files; the ending `.binarycookies` is dropped.
    Cookies,
    /// Files that end in `.binarycookies`, and no others.
    OnlyCookies,
    /// Directories that end in `.savedState`.
    SavedState,
}

/// What an entry of a directory of files is taken as.
pub open spec fn file_candidate(
    disk: DiskView,
    hub: Seq<Seq<char>>,
    how: FileHub,
    name: Seq<char>,
) -> Option<CandidateView> {
    let path = child(hub, name);
    let stem: Option<Seq<char>> = match how {
        FileHub::Plists => if name == "ByHost"@ {
            None
        } else {
            without_suffix(name, ".plist"@)
        },
        FileHub::Cookies => if !disk.is_file(path) {
            None
        } else if without_suffix(name, ".binarycookies"@) is Some {
            without_suffix(name, ".binarycookies"@)
        } else {
            Some(name)
        },
        FileHub::OnlyCookies => if !disk.is_file(path) {
            None
        } else {
            without_suffix(name, ".binarycookies"@)
        },
        FileHub::SavedState => without_suffix(name, ".savedState"@),
    };
    match stem {
        Some(s) => Some(
            CandidateView {
                path,
                name: s,
                parent_kind: match how {
                    FileHub::Plists => EntryKind::Preferences,
                    FileHub::Cookies => EntryKind::WebData,
                    FileHub::OnlyCookies => EntryKind::WebData,
                    FileHub::SavedState => EntryKind::SavedState,
                },
                vendor: None,
                is_file: !(how is SavedState),
            },
        ),
        None => None,
    }
}

/// What an entry of a directory of files is taken as.
pub open spec fn file_candidates(disk: DiskView, hub: Seq<Seq<char>>, how: FileHub) -> spec_fn(
    (Seq<char>, NodeKind),
) -> Option<CandidateView> {
    |e: (Seq<char>, NodeKind)| file_candidate(disk, hub, how, e.0)
}

/// What the entries of a directory of files are taken as.
pub open spec fn files_in(disk: DiskView, hub: Seq<Seq<char>>, how: FileHub) -> Seq<CandidateView> {
    match disk.list(hub) {
        Some(entries) => entries.filter_map(file_candidates(disk, hub, how)),
        None => seq![],
    }
}

fn put(out: &mut Vec<Candidate>, c: Candidate)
    ensures
        final(out).deep_view() == old(out).deep_view().push(c@),
{
    let ghost was = out.deep_view();
    out.push(c);
    assert(out.deep_view() =~= was.push(c@));
}

fn push_depth1(trees: &Vec<DirTree>, hub: &FilePath, kind: EntryKind, out: &mut Vec<Candidate>)
    ensures
        final(out).deep_view() == old(out).deep_view() + depth1(trees.deep_view(), hub@, kind),
{
    let names = tree_child_names(trees, hub);
    let ghost was = out.deep_view();
    let ghost want = depth1(trees.deep_view(), hub@, kind);
    let mut i: usize = 0;
    assert(was + want.take(0) =~= was);
    while i < names.len()
        invariant
            i <= names.len(),
            names.deep_view() == dirs_in(trees.deep_view(), hub@),
            want == depth1(trees.deep_view(), hub@, kind),
            out.deep_view() == was + want.take(i as int),
        decreases names.len() - i,
    {
        assert(names.deep_view()[i as int] == names@[i as int]@);
        put(
            out,
            Candidate {
                path: hub.child(names[i].as_str()),
                name: names[i].clone(),
                parent_kind: kind,
                vendor: None,
                is_file: false,
            },
        );
        assert(out.deep_view() =~= was + want.take(i + 1));
        i = i + 1;
    }
    assert(want.take(i as int) =~= want);
}

fn push_depth2(
    trees: &Vec<DirTree>,
    hub: &FilePath,
    kind: EntryKind,
    vendor: &str,
    out: &mut Vec<Candidate>,
)
    ensures
        final(out).deep_view() == old(out).deep_view() + depth2(
            trees.deep_view(),
            hub@,
            kind,
            vendor@,
        ),
{
    let dir = hub.child(vendor);
    let names = tree_child_names(trees, &dir);
    let ghost was = out.deep_view();
    let ghost want = depth2(trees.deep_view(), hub@, kind, vendor@);
    let mut i: usize = 0;
    assert(was + want.take(0) =~= was);
    while i < names.len()
        invariant
            i <= names.len(),
            dir@ == child(hub@, vendor@),
            names.deep_view() == dirs_in(trees.deep_view(), dir@),
            want == depth2(trees.deep_view(), hub@, kind, vendor@),
            out.deep_view() == was + want.take(i as int),
        decreases names.len() - i,
    {
        assert(names.deep_view()[i as int] == names@[i as int]@);
        put(
            out,
            Candidate {
                path: dir.child(names[i].as_str()),
                name: names[i].clone(),
                parent_kind: kind,
                vendor: Some(vendor.to_owned()),
                is_file: false,
            },
        );
        assert(out.deep_view() =~= was + want.take(i + 1));
        i = i + 1;
    }
    assert(want.take(i as int) =~= want);
}

fn push_depth1_and_vendor2(
    trees: &Vec<DirTree>,
    hub: &FilePath,
    kind: EntryKind,
    out: &mut Vec<Candidate>,
)
    ensures
        final(out).deep_view() == old(out).deep_view() + depth1_and_2(
            trees.deep_view(),
            hub@,
            kind,
            dirs_in(trees.deep_view(), hub@),
        ),
{
    let names = tree_child_names(trees, hub);
    let ghost was = out.deep_view();
    let ghost tv = trees.deep_view();
    let ghost all = names.deep_view();
    let mut i: usize = 0;
    assert(was + depth1_and_2(tv, hub@, kind, all.take(0)) =~= was);
    while i < names.len()
        invariant
            i <= names.len(),
            tv == trees.deep_view(),
            all == names.deep_view(),
            out.deep_view() == was + depth1_and_2(tv, hub@, kind, all.take(i as int)),
        decreases names.len() - i,
    {
        let name = names[i].as_str();
        proof {
            assert(all[i as int] == name@);
            assert(all.take(i + 1).drop_last() =~= all.take(i as int));
            assert(all.take(i + 1).last() == name@);
        }
        let ghost before = depth1_and_2(tv, hub@, kind, all.take(i as int));
        put(
            out,
            Candidate {
                path: hub.child(name),
                name: name.to_owned(),
                parent_kind: kind,
                vendor: None,
                is_file: false,
            },
        );
        let c = chars_of(name);
        let k = find_char(c.as_slice(), '.');
        if k >= c.len() {
            proof {
                assert(!name@.contains('.'));
            }
            push_depth2(trees, hub, kind, name, out);
        } else {
            proof {
                assert(name@[k as int] == '.');
                assert(name@.contains('.'));
            }
        }
        assert(out.deep_view() =~= was + depth1_and_2(tv, hub@, kind, all.take(i + 1)));
        i = i + 1;
    }
    assert(all.take(i as int) =~= all);
}

fn skip_dotdir(name: &str) -> (r: bool)
    ensures
        r == skipped_dotdir(name@),
{
    same(name, ".Trash") || same(name, ".git") || same(name, ".ssh") || same(name, ".DS_Store")
        || same(name, ".config") || same(name, ".cache") || same(name, ".local")
}

fn push_home_dotdirs(trees: &Vec<DirTree>, home: &FilePath, out: &mut Vec<Candidate>)
    ensures
        final(out).deep_view() == old(out).deep_view() + dirs_in(
            trees.deep_view(),
            home@,
        ).filter_map(dotdir(home@)),
{
    let names = tree_child_names(trees, home);
    let ghost was = out.deep_view();
    let ghost all = names.deep_view();
    let ghost pick = dotdir(home@);
    let mut i: usize = 0;
    proof {
        assert(all.take(0) =~= seq![]);
        reveal(Seq::filter_map);
        assert(was + all.take(0).filter_map(pick) =~= was);
    }
    while i < names.len()
        invariant
            i <= names.len(),
            all == names.deep_view(),
            pick == dotdir(home@),
            out.deep_view() == was + all.take(i as int).filter_map(pick),
        decreases names.len() - i,
    {
        let name = names[i].as_str();
        let ghost before = all.take(i as int).filter_map(pick);
        proof {
            assert(all[i as int] == name@);
            all.lemma_filter_map_take_succ(pick, i as int);
        }
        let c = chars_of(name);
        if c.len() > 0 && c[0] == '.' && !skip_dotdir(name) {
            put(
                out,
                Candidate {
                    path: home.child(name),
                    name: name.to_owned(),
                    parent_kind: EntryKind::DotDir,
                    vendor: None,
                    is_file: false,
                },
            );
        }
        assert(out.deep_view() =~= was + all.take(i + 1).filter_map(pick));
        i = i + 1;
    }
    assert(all.take(i as int) =~= all);
}

fn without_ending(name: &str, end: &str) -> (r: Option<String>)
    ensures
        r.deep_view() == without_suffix(name@, end@),
{
    let c = chars_of(name);
    match strip_suffix(c.as_slice(), end) {
        Some(s) => Some(string_of(s)),
        None => None,
    }
}

fn take_file(disk: &mut Disk, hub: &FilePath, how: &FileHub, name: &str) -> (r: Option<Candidate>)
    requires
        old(disk).wf(),
    ensures
        final(disk).asked(*old(disk)),
        final(disk).holds() ==> r.deep_view() == file_candidate(old(disk)@, hub@, *how, name@),
{
    let path = hub.child(name);
    let stem = match how {
        FileHub::Plists => if same(name, "ByHost") {
            None
        } else {
            without_ending(name, ".plist")
        },
        FileHub::Cookies => if !disk.is_file(&path) {
            None
        } else {
            match without_ending(name, ".binarycookies") {
                Some(s) => Some(s),
                None => Some(name.to_owned()),
            }
        },
        FileHub::OnlyCookies => if !disk.is_file(&path) {
            None
        } else {
            without_ending(name, ".binarycookies")
        },
        FileHub::SavedState => without_ending(name, ".savedState"),
    };
    let kind = match how {
        FileHub::Plists => EntryKind::Preferences,
        FileHub::Cookies => EntryKind::WebData,
        FileHub::OnlyCookies => EntryKind::WebData,
        FileHub::SavedState => EntryKind::SavedState,
    };
    let is_file = match how {
        FileHub::SavedState => false,
        _ => true,
    };
    match stem {
        Some(s) => Some(
            Candidate { path, name: s, parent_kind: kind, vendor: None, is_file },
        ),
        None => None,
    }
}

fn push_files(disk: &mut Disk, hub: &FilePath, how: FileHub, out: &mut Vec<Candidate>)
    requires
        old(disk).wf(),
    ensures
        final(disk).asked(*old(disk)),
        final(disk).holds()
            ==> final(out).deep_view() == old(out).deep_view() + files_in(old(disk)@, hub@, how),
{
    let ghost was = out.deep_view();
    let ghost facts = disk@;
    let listing = disk.list(hub);
    match listing {
        Some(entries) => {
            let ghost all = entries.deep_view();
            let ghost pick = file_candidates(facts, hub@, how);
            let mut i: usize = 0;
            proof {
                assert(all.take(0) =~= seq![]);
                reveal(Seq::filter_map);
                assert(was + all.take(0).filter_map(pick) =~= was);
            }
            let ghost start = *disk;
            while i < entries.len()
                invariant
                    i <= entries.len(),
                    facts == old(disk)@,
                    disk.asked(*old(disk)),
                    disk.holds() ==> start.holds(),
                    all == entries.deep_view(),
                    pick == file_candidates(facts, hub@, how),
                    disk.holds() ==> out.deep_view() == was + all.take(i as int).filter_map(pick),
                decreases entries.len() - i,
            {
                proof {
                    assert(all[i as int] == entries@[i as int].deep_view());
                    all.lemma_filter_map_take_succ(pick, i as int);
                }
                let taken = take_file(disk, hub, &how, entries[i].name.as_str());
                assert(disk.holds() ==> taken.deep_view() == pick(all[i as int]));
                if let Some(c) = taken {
                    put(out, c);
                }
                assert(disk.holds() ==> out.deep_view() =~= was + all.take(i + 1).filter_map(pick));
                i = i + 1;
            }
            assert(all.take(i as int) =~= all);
        },
        None => {
            assert(disk.holds() ==> was + files_in(facts, hub@, how) =~= was);
        },
    }
}

/// Every path that may belong to somebody: the places below the library directories, the hidden
/// directories of the home directory, and Homebrew's.
pub open spec fn candidates_in(env: EnvView, disk: DiskView) -> Seq<CandidateView> {
    let t = env.trees;
    let lib = child(env.home, "Library"@);
    let sys = path_of("/Library"@);
    let support = child(lib, "Application Support"@);
    let caches = child(lib, "Caches"@);
    depth1_and_2(t, support, EntryKind::AppSupport, dirs_in(t, support)) + depth1_and_2(
        t,
        caches,
        EntryKind::Cache,
        dirs_in(t, caches),
    ) + depth1(t, child(lib, "Containers"@), EntryKind::Container) + depth1(
        t,
        child(lib, "Group Containers"@),
        EntryKind::GroupContainer,
    ) + depth1(t, child(lib, "Logs"@), EntryKind::Logs) + depth1(
        t,
        child(lib, "HTTPStorages"@),
        EntryKind::WebData,
    ) + files_in(disk, child(lib, "HTTPStorages"@), FileHub::OnlyCookies) + depth1(
        t,
        child(lib, "WebKit"@),
        EntryKind::WebData,
    ) + files_in(disk, child(lib, "Saved Application State"@), FileHub::SavedState) + files_in(
        disk,
        child(lib, "Cookies"@),
        FileHub::Cookies,
    ) + depth1(t, child(lib, "Application Scripts"@), EntryKind::Other) + files_in(
        disk,
        child(lib, "Preferences"@),
        FileHub::Plists,
    ) + depth1(t, child(env.home, ".config"@), EntryKind::DotDir) + depth1(
        t,
        child(env.home, ".cache"@),
        EntryKind::Cache,
    ) + depth1(t, child(env.home, ".local/share"@), EntryKind::DotDir) + depth1(
        t,
        child(env.home, ".local/state"@),
        EntryKind::DotDir,
    ) + dirs_in(t, env.home).filter_map(dotdir(env.home)) + depth1(
        t,
        child(sys, "Application Support"@),
        EntryKind::AppSupport,
    ) + depth1(t, child(sys, "Caches"@), EntryKind::Cache) + depth1(
        t,
        child(sys, "Logs"@),
        EntryKind::Logs,
    ) + files_in(disk, child(sys, "Preferences"@), FileHub::Plists) + (match env.brew_prefix {
        Some(p) => depth1(t, child(p, "var"@), EntryKind::Other) + depth1(
            t,
            child(p, "etc"@),
            EntryKind::Other,
        ) + depth1(t, child(p, "share"@), EntryKind::Other),
        None => seq![],
    })
}

/// List every path that may belong to somebody.
pub fn collect(env: &ResolveEnv, disk: &mut Disk) -> (r: Vec<Candidate>)
    requires
        old(disk).wf(),
    ensures
        final(disk).asked(*old(disk)),
        final(disk).holds() ==> r.deep_view() == candidates_in(env@, old(disk)@),
{
    let t = &env.trees;
    let mut out: Vec<Candidate> = Vec::new();
    assert(out.deep_view() =~= seq![]);
    let lib = env.home.child("Library");
    push_depth1_and_vendor2(t, &lib.child("Application Support"), EntryKind::AppSupport, &mut out);
    push_depth1_and_vendor2(t, &lib.child("Caches"), EntryKind::Cache, &mut out);
    push_depth1(t, &lib.child("Containers"), EntryKind::Container, &mut out);
    push_depth1(t, &lib.child("Group Containers"), EntryKind::GroupContainer, &mut out);
    push_depth1(t, &lib.child("Logs"), EntryKind::Logs, &mut out);
    push_depth1(t, &lib.child("HTTPStorages"), EntryKind::WebData, &mut out);
    push_files(disk, &lib.child("HTTPStorages"), FileHub::OnlyCookies, &mut out);
    push_depth1(t, &lib.child("WebKit"), EntryKind::WebData, &mut out);
    push_files(disk, &lib.child("Saved Application State"), FileHub::SavedState, &mut out);
    push_files(disk, &lib.child("Cookies"), FileHub::Cookies, &mut out);
    push_depth1(t, &lib.child("Application Scripts"), EntryKind::Other, &mut out);
    push_files(disk, &lib.child("Preferences"), FileHub::Plists, &mut out);
    push_depth1(t, &env.home.child(".config"), EntryKind::DotDir, &mut out);
    push_depth1(t, &env.home.child(".cache"), EntryKind::Cache, &mut out);
    push_depth1(t, &env.home.child(".local/share"), EntryKind::DotDir, &mut out);
    push_depth1(t, &env.home.child(".local/state"), EntryKind::DotDir, &mut out);
    push_home_dotdirs(t, &env.home, &mut out);
    let sys = FilePath::from_text("/Library");
    push_depth1(t, &sys.child("Application Support"), EntryKind::AppSupport, &mut out);
    push_depth1(t, &sys.child("Caches"), EntryKind::Cache, &mut out);
    push_depth1(t, &sys.child("Logs"), EntryKind::Logs, &mut out);
    push_files(disk, &sys.child("Preferences"), FileHub::Plists, &mut out);
    if let Some(p) = &env.brew_prefix {
        push_depth1(t, &p.child("var"), EntryKind::Other, &mut out);
        push_depth1(t, &p.child("etc"), EntryKind::Other, &mut out);
        push_depth1(t, &p.child("share"), EntryKind::Other, &mut out);
    }
    assert(disk.holds() ==> out.deep_view() =~= candidates_in(env@, old(disk)@));
    out
}

/// Data of one of Apple's apps: where it is, whose it is, and how it is called.
#[derive(Debug)]
pub struct AppleData {
    pub path: FilePath,
    pub bundle_id: &'static str,
    pub label: String,
}

/// Data of one of Apple's apps, as a value.
#[verifier::ext_equal]
pub struct AppleDataView {
    pub path: Seq<Seq<char>>,
    pub bundle_id: Seq<char>,
    pub label: Seq<char>,
}

impl DeepView for AppleData {
    type V = AppleDataView;

    open spec fn deep_view(&self) -> AppleDataView {
        AppleDataView { path: self.path@, bundle_id: self.bundle_id@, label: self.label@ }
    }
}

/// A photo library.
pub open spec fn photo_library(dir: Seq<Seq<char>>) -> spec_fn((Seq<char>, NodeKind)) -> Option<
    AppleDataView,
> {
    |e: (Seq<char>, NodeKind)|
        if extension_of(e.0) == Some("photoslibrary"@) {
            Some(
                AppleDataView {
                    path: child(dir, e.0),
                    bundle_id: PHOTOS_BUNDLE_ID@,
                    label: stem_of(e.0),
                },
            )
        } else {
            None
        }
}

/// A cloud provider's directory: the provider's name, a hyphen and the account.
pub open spec fn cloud_dir(dir: Seq<Seq<char>>) -> spec_fn((Seq<char>, NodeKind)) -> Option<
    AppleDataView,
> {
    |e: (Seq<char>, NodeKind)|
        if index_of(e.0, '-') < e.0.len() {
            match provider_app(e.0.take(index_of(e.0, '-') as int)) {
                Some(id) => Some(
                    AppleDataView { path: child(dir, e.0), bundle_id: id, label: e.0 },
                ),
                None => None,
            }
        } else {
            None
        }
}

/// The entries of a directory that `pick` takes; none where it cannot be read.
pub open spec fn picked(
    disk: DiskView,
    dir: Seq<Seq<char>>,
    pick: spec_fn((Seq<char>, NodeKind)) -> Option<AppleDataView>,
) -> Seq<AppleDataView> {
    match disk.list(dir) {
        Some(entries) => entries.filter_map(pick),
        None => seq![],
    }
}

/// Where Apple's apps keep their data.
pub open spec fn apple_data_in(env: EnvView, disk: DiskView) -> Seq<AppleDataView> {
    let pictures = child(env.home, "Pictures"@);
    let clouds = child(env.home, "Library/CloudStorage"@);
    Seq::new(
        apple_places().len(),
        |i: int|
            AppleDataView {
                path: child(env.home, apple_places()[i].1),
                bundle_id: apple_places()[i].0,
                label: apple_places()[i].2,
            },
    ) + picked(disk, pictures, photo_library(pictures)) + picked(disk, clouds, cloud_dir(clouds))
}

fn put_data(out: &mut Vec<AppleData>, d: AppleData)
    ensures
        final(out).deep_view() == old(out).deep_view().push(d.deep_view()),
{
    let ghost was = out.deep_view();
    out.push(d);
    assert(out.deep_view() =~= was.push(d.deep_view()));
}

fn push_photos(disk: &mut Disk, dir: &FilePath, out: &mut Vec<AppleData>)
    requires
        old(disk).wf(),
    ensures
        final(disk).asked(*old(disk)),
        final(disk).holds() ==> final(out).deep_view() == old(out).deep_view() + picked(
            old(disk)@,
            dir@,
            photo_library(dir@),
        ),
{
    let ghost was = out.deep_view();
    let listing = disk.list(dir);
    match listing {
        Some(entries) => {
            let ghost all = entries.deep_view();
            let ghost pick = photo_library(dir@);
            let mut i: usize = 0;
            proof {
                assert(all.take(0) =~= seq![]);
                reveal(Seq::filter_map);
                assert(was + all.take(0).filter_map(pick) =~= was);
            }
            while i < entries.len()
                invariant
                    i <= entries.len(),
                    all == entries.deep_view(),
                    pick == photo_library(dir@),
                    disk.holds() ==> out.deep_view() == was + all.take(i as int).filter_map(pick),
                decreases entries.len() - i,
            {
                let name = entries[i].name.as_str();
                proof {
                    assert(all[i as int] == entries@[i as int].deep_view());
                    all.lemma_filter_map_take_succ(pick, i as int);
                }
                let is_library = match extension(name) {
                    Some(e) => same(e.as_str(), "photoslibrary"),
                    None => false,
                };
                if is_library {
                    put_data(
                        out,
                        AppleData {
                            path: dir.child(name),
                            bundle_id: PHOTOS_BUNDLE_ID,
                            label: stem(name),
                        },
                    );
                }
                assert(disk.holds() ==> out.deep_view() =~= was + all.take(i + 1).filter_map(pick));
                i = i + 1;
            }
            assert(all.take(i as int) =~= all);
        },
        None => {
            assert(out.deep_view() =~= was + seq![]);
        },
    }
}

fn push_clouds(disk: &mut Disk, dir: &FilePath, out: &mut Vec<AppleData>)
    requires
        old(disk).wf(),
    ensures
        final(disk).asked(*old(disk)),
        final(disk).holds()
            ==> final(out).deep_view() == old(out).deep_view() + picked(old(disk)@, dir@, cloud_dir(dir@)),
{
    let ghost was = out.deep_view();
    let listing = disk.list(dir);
    match listing {
        Some(entries) => {
            let ghost all = entries.deep_view();
            let ghost pick = cloud_dir(dir@);
            let mut i: usize = 0;
            proof {
                assert(all.take(0) =~= seq![]);
                reveal(Seq::filter_map);
                assert(was + all.take(0).filter_map(pick) =~= was);
            }
            while i < entries.len()
                invariant
                    i <= entries.len(),
                    all == entries.deep_view(),
                    pick == cloud_dir(dir@),
                    disk.holds() ==> out.deep_view() == was + all.take(i as int).filter_map(pick),
                decreases entries.len() - i,
            {
                let name = entries[i].name.as_str();
                proof {
                    assert(all[i as int] == entries@[i as int].deep_view());
                    all.lemma_filter_map_take_succ(pick, i as int);
                }
                let c = chars_of(name);
                let k = find_char(c.as_slice(), '-');
                if k < c.len() {
                    let front = slice_subrange(c.as_slice(), 0, k);
                    assert(front@ =~= name@.take(k as int));
                    let provider = string_of(front);
                    if let Some(id) = cloud_provider(provider.as_str()) {
                        put_data(
                            out,
                            AppleData {
                                path: dir.child(name),
                                bundle_id: id,
                                label: name.to_owned(),
                            },
                        );
                    }
                }
                assert(disk.holds() ==> out.deep_view() =~= was + all.take(i + 1).filter_map(pick));
                i = i + 1;
            }
            assert(all.take(i as int) =~= all);
        },
        None => {
            assert(out.deep_view() =~= was + seq![]);
        },
    }
}

/// Find where Apple's apps keep their data.
pub fn apple_data(env: &ResolveEnv, disk: &mut Disk) -> (r: Vec<AppleData>)
    requires
        old(disk).wf(),
    ensures
        final(disk).asked(*old(disk)),
        final(disk).holds() ==> r.deep_view() == apple_data_in(env@, old(disk)@),
{
    let places = apple_data_locations();
    let ghost fixed = Seq::new(
        apple_places().len(),
        |i: int|
            AppleDataView {
                path: child(env@.home, apple_places()[i].1),
                bundle_id: apple_places()[i].0,
                label: apple_places()[i].2,
            },
    );
    let mut out: Vec<AppleData> = Vec::new();
    let mut i: usize = 0;
    while i < places.len()
        invariant
            i <= places.len(),
            places.deep_view() == apple_places(),
            fixed == Seq::new(
                apple_places().len(),
                |i: int|
                    AppleDataView {
                        path: child(env@.home, apple_places()[i].1),
                        bundle_id: apple_places()[i].0,
                        label: apple_places()[i].2,
                    },
            ),
            disk.holds() ==> out.deep_view() =~= fixed.take(i as int),
        decreases places.len() - i,
    {
        assert(places.deep_view()[i as int] == places@[i as int].deep_view());
        assert(places.deep_view().len() == places.len());
        let p = &places[i];
        put_data(
            &mut out,
            AppleData {
                path: env.home.child(p.home_suffix),
                bundle_id: p.bundle_id,
                label: p.label.to_owned(),
            },
        );
        i = i + 1;
    }
    assert(fixed.take(i as int) =~= fixed);
    push_photos(disk, &env.home.child("Pictures"), &mut out);
    push_clouds(disk, &env.home.child("Library/CloudStorage"), &mut out);
    assert(disk.holds() ==> out.deep_view() =~= apple_data_in(env@, old(disk)@));
    out
}

} // verus!
