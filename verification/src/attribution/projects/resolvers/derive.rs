//! The functions that rules name where no template can say what they do.

use vstd::prelude::*;
use vstd::slice::slice_subrange;

use crate::attribution::apps::candidates::{dirs_in, tree_child_names};
use crate::attribution::model::{AgentNames, EnvView, ResolveEnv};
use crate::attribution::projects::{put_path, put_paths, put_text, Project};
use crate::disk::{Disk, DiskView, NodeKind};
use crate::doc::{json_document, parse_json, parse_plist, plist_document, text_field, Doc, DocView};
use crate::fspath::{child, file_name, FilePath};
use crate::scan::TreeView;
use crate::seqs::{
    first_some, flat, lemma_filter_map_start, lemma_first_some_step, lemma_flat_start,
    lemma_flat_step,
};
use crate::text::{
    after_last, byte_len, cat2, cat3, cat4, chars_of, ends, find_char, find_last, has_char, is_digit,
    holds_char, index_of, lines, lines_of, listed, lower_text, lowered, occurs_at, rfind_sub, rfind_text, same,
    str_ends, string_of, strip_suffix, swap_char, swapped, without_suffix,
};

use super::parsers::{
    behind_last, encode_claude_project_dir, encoded_dir, escape_module_path, escaped_char,
    expand_target_dir, go_module_cache_dir, mod_cache, npm_integrity_to_shard, shard, target_dir, Key,
    KeyView,
};
use super::templates::{entry_paths, files_below, first_of, walk_files};

verus! {

broadcast use crate::disk::group_asks;

/// How many files of npm's index are read.
pub const MAX_NPM_INDEX_FILES: usize = 50000;

/// What npm's index says of one package.
#[derive(Clone, Debug)]
pub struct NpmEntry {
    pub name: String,
    pub version: String,
    pub integrity: String,
}

/// What npm's index says of one package, as a value.
#[verifier::ext_equal]
pub struct NpmEntryView {
    pub name: Seq<char>,
    pub version: Seq<char>,
    pub integrity: Seq<char>,
}

impl DeepView for NpmEntry {
    type V = NpmEntryView;

    open spec fn deep_view(&self) -> NpmEntryView {
        NpmEntryView { name: self.name@, version: self.version@, integrity: self.integrity@ }
    }
}

/// Where the version starts in the name of an archive: behind the last `-` of the first `n`
/// characters that a digit follows. A version always starts with a digit.
pub open spec fn version_start(nv: Seq<char>, n: int) -> Option<int>
    decreases n,
{
    if n <= 0 || n > nv.len() {
        None
    } else if n < nv.len() && nv[n - 1] == '-' && is_digit(nv[n]) {
        Some(n)
    } else {
        version_start(nv, n - 1)
    }
}

/// Name and version in the URL of a package's archive: what stands before and behind the last `-`
/// of the file's name that a digit follows.
pub open spec fn archive_name(key: Seq<char>) -> Option<(Seq<char>, Seq<char>)> {
    match without_suffix(behind_last(key, '/'), ".tgz"@) {
        Some(nv) => {
            match version_start(nv, nv.len() as int) {
                Some(k) => if k > 1 {
                    Some((nv.take(k - 1), nv.skip(k)))
                } else {
                    None
                },
                None => None,
            }
        },
        None => None,
    }
}

/// What a document in npm's index says of a package.
pub open spec fn npm_entry(d: DocView) -> Option<NpmEntryView> {
    match (text_field(d, "key"@), text_field(d, "integrity"@)) {
        (Some(key), Some(integrity)) => match archive_name(key) {
            Some(nv) => Some(NpmEntryView { name: nv.0, version: nv.1, integrity }),
            None => None,
        },
        _ => None,
    }
}

/// What a line of npm's index says: a document stands from its first `{` on.
pub open spec fn npm_line() -> spec_fn(Seq<char>) -> Option<NpmEntryView> {
    |line: Seq<char>|
        if has_char(line, '{') {
            match json_document(line.skip(index_of(line, '{') as int)) {
                Some(d) => npm_entry(d),
                None => None,
            }
        } else {
            None
        }
}

/// What a file of npm's index says.
pub open spec fn npm_file(disk: DiskView) -> spec_fn(Seq<Seq<char>>) -> Seq<NpmEntryView> {
    |p: Seq<Seq<char>>|
        match disk.text(p) {
            Some(text) => lines(text).filter_map(npm_line()),
            None => seq![],
        }
}

/// What npm's index says, file by file.
pub open spec fn npm_index(disk: DiskView, home: Seq<Seq<char>>) -> Seq<NpmEntryView> {
    flat(
        first_of(
            files_below(disk, seq![child(home, ".npm/_cacache/index-v5"@)], u64::MAX as nat),
            MAX_NPM_INDEX_FILES as nat,
        ),
        npm_file(disk),
    )
}

/// The integrity that the index gives last for a package.
pub open spec fn npm_integrity(
    entries: Seq<NpmEntryView>,
    name: Seq<char>,
    version: Seq<char>,
) -> Option<Seq<char>>
    decreases entries.len(),
{
    if entries.len() == 0 {
        None
    } else if entries.last().name == name && entries.last().version == version {
        Some(entries.last().integrity)
    } else {
        npm_integrity(entries.drop_last(), name, version)
    }
}

fn split_archive(key: &str) -> (r: Option<(String, String)>)
    ensures
        r.deep_view() == archive_name(key@),
{
    let c = chars_of(key);
    let k = find_last(c.as_slice(), '/');
    let file = slice_subrange(c.as_slice(), k, c.len());
    assert(file@ =~= behind_last(key@, '/'));
    match strip_suffix(file, ".tgz") {
        Some(nv) => {
            let mut k: usize = nv.len();
            while k > 0 && !(k < nv.len() && nv[k - 1] == '-' && '0' <= nv[k] && nv[k] <= '9')
                invariant
                    k <= nv@.len(),
                    version_start(nv@, nv@.len() as int) == version_start(nv@, k as int),
                decreases k,
            {
                k = k - 1;
            }
            if k > 1 {
                let name = slice_subrange(nv, 0, k - 1);
                let version = slice_subrange(nv, k, nv.len());
                assert(name@ =~= nv@.take(k - 1));
                assert(version@ =~= nv@.skip(k as int));
                Some((string_of(name), string_of(version)))
            } else {
                None
            }
        },
        None => None,
    }
}

/// What a document in npm's index says of a package: the archive under `key` names it, and its
/// digest stands under `integrity`.
pub fn read_npm_entry(d: &Doc) -> (r: Option<NpmEntry>)
    ensures
        r.deep_view() == npm_entry(d@),
{
    match (d.text("key"), d.text("integrity")) {
        (Some(key), Some(integrity)) => match split_archive(key) {
            Some((name, version)) => Some(
                NpmEntry { name, version, integrity: integrity.to_owned() },
            ),
            None => None,
        },
        _ => None,
    }
}

fn read_npm_line(line: &str) -> (r: Option<NpmEntry>)
    ensures
        r.deep_view() == npm_line()(line@),
{
    let c = chars_of(line);
    let k = find_char(c.as_slice(), '{');
    if k >= c.len() {
        return None;
    }
    let tail = slice_subrange(c.as_slice(), k, c.len());
    assert(tail@ =~= line@.skip(k as int));
    match parse_json(string_of(tail).as_str()) {
        Some(d) => read_npm_entry(&d),
        None => None,
    }
}

fn read_npm_file(disk: &mut Disk, p: &FilePath, out: &mut Vec<NpmEntry>)
    requires
        old(disk).wf(),
    ensures
        final(disk).asked(*old(disk)),
        final(disk).holds()
            ==> final(out).deep_view() == old(out).deep_view() + npm_file(old(disk)@)(p@),
{
    let ghost was = out.deep_view();
    match disk.text(p) {
        Some(text) => {
            let l = lines_of(text.as_str());
            let ghost all = l.deep_view();
            let mut i: usize = 0;
            proof {
                lemma_filter_map_start(all, npm_line());
                assert(out.deep_view() =~= was + all.take(0).filter_map(npm_line()));
            }
            while i < l.len()
                invariant
                    i <= l.len(),
                    all == l.deep_view(),
                    disk.holds()
                        ==> out.deep_view() == was + all.take(i as int).filter_map(npm_line()),
                decreases l.len() - i,
            {
                proof {
                    assert(all[i as int] == l@[i as int]@);
                    all.lemma_filter_map_take_succ(npm_line(), i as int);
                }
                let ghost before = out.deep_view();
                if let Some(e) = read_npm_line(l[i].as_str()) {
                    out.push(e);
                    assert(out.deep_view() =~= before.push(e.deep_view()));
                }
                assert(disk.holds()
                    ==> out.deep_view() =~= was + all.take(i + 1).filter_map(npm_line()));
                i = i + 1;
            }
            assert(all.take(i as int) =~= all);
        },
        None => {
            assert(disk.holds() ==> out.deep_view() =~= was + npm_file(old(disk)@)(p@));
        },
    }
}

/// What npm's index says, file by file.
pub fn scan_npm_index(home: &FilePath, disk: &mut Disk) -> (r: Vec<NpmEntry>)
    requires
        old(disk).wf(),
    ensures
        final(disk).asked(*old(disk)),
        final(disk).holds() ==> r.deep_view() == npm_index(old(disk)@, home@),
{
    let ghost facts = disk@;
    let ghost f = npm_file(facts);
    let dir = home.child(".npm/_cacache/index-v5");
    let mut roots: Vec<FilePath> = Vec::new();
    roots.push(dir);
    assert(roots.deep_view() =~= seq![dir@]);
    let files = walk_files(disk, roots, MAX_NPM_INDEX_FILES);
    let ghost all = files.deep_view();
    let mut out: Vec<NpmEntry> = Vec::new();
    let mut i: usize = 0;
    proof {
        lemma_flat_start(all, f);
        assert(out.deep_view() =~= flat(all.take(0), f));
    }
    let ghost start = *disk;
    while i < files.len()
        invariant
            i <= files.len(),
            all == files.deep_view(),
            facts == old(disk)@,
            f == npm_file(facts),
            disk.asked(*old(disk)),
            disk.holds() ==> start.holds(),
            disk.holds() ==> out.deep_view() == flat(all.take(i as int), f),
        decreases files.len() - i,
    {
        proof {
            assert(all[i as int] == files@[i as int]@);
            lemma_flat_step(all, f, i as int);
        }
        read_npm_file(disk, &files[i], &mut out);
        i = i + 1;
    }
    assert(all.take(i as int) =~= all);
    out
}

/// npm's index, once it was read.
pub struct NpmMemo {
    pub index: Option<Vec<NpmEntry>>,
}

impl NpmMemo {
    /// What is remembered is npm's index.
    pub open spec fn wf(self, disk: DiskView, home: Seq<Seq<char>>) -> bool {
        self.index is Some ==> self.index->0.deep_view() == npm_index(disk, home)
    }

    /// Nothing remembered.
    pub fn new() -> (r: NpmMemo)
        ensures
            forall|disk: DiskView, home: Seq<Seq<char>>| r.wf(disk, home),
            r.index is None,
    {
        NpmMemo { index: None }
    }
}

fn find_integrity(entries: &Vec<NpmEntry>, name: &str, version: &str) -> (r: Option<String>)
    ensures
        r.deep_view() == npm_integrity(entries.deep_view(), name@, version@),
{
    let ghost all = entries.deep_view();
    let mut n: usize = entries.len();
    assert(all.take(n as int) =~= all);
    while n > 0
        invariant
            n <= entries.len(),
            all == entries.deep_view(),
            npm_integrity(all, name@, version@) == npm_integrity(
                all.take(n as int),
                name@,
                version@,
            ),
        decreases n,
    {
        let e = &entries[n - 1];
        assert(all.take(n as int).last() == e.deep_view());
        assert(all.take(n as int).drop_last() =~= all.take(n - 1));
        if same(e.name.as_str(), name) && same(e.version.as_str(), version) {
            return Some(e.integrity.clone());
        }
        n = n - 1;
    }
    None
}

/// Where npm's cache keeps what has this integrity.
pub open spec fn blob_path(home: Seq<Seq<char>>, integrity: Option<Seq<char>>) -> Seq<
    Seq<Seq<char>>,
> {
    match integrity {
        Some(i) => match shard(i) {
            Some(s) => seq![
                child(
                    child(child(child(home, ".npm/_cacache/content-v2/sha512"@), s.0), s.1),
                    s.2,
                ),
            ],
            None => seq![],
        },
        None => seq![],
    }
}

/// Where npm's cache keeps what has this integrity.
pub fn npm_blob(home: &FilePath, integrity: Option<String>) -> (r: Vec<FilePath>)
    ensures
        r.deep_view() == blob_path(home@, integrity.deep_view()),
{
    let mut out: Vec<FilePath> = Vec::new();
    if let Some(i) = integrity {
        if let Some((a, b, rest)) = npm_integrity_to_shard(i.as_str()) {
            let p = home.child(".npm/_cacache/content-v2/sha512").child(a.as_str()).child(
                b.as_str(),
            ).child(rest.as_str());
            put_path(&mut out, p);
        }
    }
    assert(out.deep_view() =~= blob_path(home@, integrity.deep_view()));
    out
}

/// npm's index: the one that was read before, where there is one.
pub open spec fn index_in(disk: DiskView, env: EnvView) -> Seq<NpmEntryView> {
    match env.npm_index {
        Some(index) => index,
        None => npm_index(disk, env.home),
    }
}

/// Where npm's cache keeps a package, going by its index.
pub open spec fn npm_paths(disk: DiskView, env: EnvView, key: KeyView) -> Seq<Seq<Seq<char>>> {
    blob_path(env.home, npm_integrity(index_in(disk, env), key.name, key.version))
}

/// Where npm's cache keeps a package, going by its index. The index is read once: one that was read
/// before counts, whatever has become of the files.
pub fn npm_cacache(key: &Key, env: &ResolveEnv, disk: &mut Disk, memo: &mut NpmMemo) -> (r: Vec<
    FilePath,
>)
    requires
        old(disk).wf(),
        old(disk).holds() ==> old(memo).wf(old(disk)@, env@.home),
    ensures
        final(disk).asked(*old(disk)),
        final(disk).holds() ==> final(memo).wf(old(disk)@, env@.home),
        final(disk).holds() ==> r.deep_view() == npm_paths(old(disk)@, env@, key@),
{
    if let Some(index) = &env.npm_index {
        let integrity = find_integrity(index, key.name.as_str(), key.version.as_str());
        return npm_blob(&env.home, integrity);
    }
    if memo.index.is_none() {
        let index = scan_npm_index(&env.home, disk);
        memo.index = Some(index);
    }
    let integrity = match &memo.index {
        Some(index) => find_integrity(index, key.name.as_str(), key.version.as_str()),
        None => None,
    };
    npm_blob(&env.home, integrity)
}

/// The directory that a value of `CARGO_TARGET_DIR` names.
pub fn cargo_target_dir(key: &Key, project: &Project, env: &ResolveEnv) -> (r: Vec<FilePath>)
    ensures
        r.deep_view() == seq![target_dir(key@.name, env@.home, project@.root)],
{
    let mut out: Vec<FilePath> = Vec::new();
    out.push(expand_target_dir(key.name.as_str(), &env.home, &project.root));
    assert(out.deep_view() =~= seq![target_dir(key@.name, env@.home, project@.root)]);
    out
}

/// Those of the paths at which something is.
pub open spec fn existing(disk: DiskView, paths: Seq<Seq<Seq<char>>>) -> Seq<Seq<Seq<char>>> {
    paths.filter_map(
        |p: Seq<Seq<char>>|
            if disk.present(p) {
                Some(p)
            } else {
                None
            },
    )
}

/// Those of the paths at which something is.
pub fn keep_existing(disk: &mut Disk, paths: Vec<FilePath>) -> (r: Vec<FilePath>)
    requires
        old(disk).wf(),
    ensures
        final(disk).asked(*old(disk)),
        final(disk).holds() ==> r.deep_view() == existing(old(disk)@, paths.deep_view()),
{
    let ghost facts = disk@;
    let ghost all = paths.deep_view();
    let ghost pick = |p: Seq<Seq<char>>|
        if facts.present(p) {
            Some(p)
        } else {
            None
        };
    let mut out: Vec<FilePath> = Vec::new();
    let mut i: usize = 0;
    proof {
        lemma_filter_map_start(all, pick);
        assert(out.deep_view() =~= all.take(0).filter_map(pick));
    }
    while i < paths.len()
        invariant
            i <= paths.len(),
            all == paths.deep_view(),
            facts == old(disk)@,
            disk.asked(*old(disk)),
            pick == (|p: Seq<Seq<char>>|
                if facts.present(p) {
                    Some(p)
                } else {
                    None
                }),
            disk.holds() ==> out.deep_view() == all.take(i as int).filter_map(pick),
        decreases paths.len() - i,
    {
        proof {
            assert(all[i as int] == paths@[i as int]@);
            all.lemma_filter_map_take_succ(pick, i as int);
        }
        if disk.present(&paths[i]) {
            put_path(&mut out, paths[i].copy());
        }
        assert(disk.holds() ==> out.deep_view() =~= all.take(i + 1).filter_map(pick));
        i = i + 1;
    }
    assert(all.take(i as int) =~= all);
    out
}

/// Where the module cache may keep a module: its sources and three files of its download.
pub open spec fn module_paths(env: EnvView, key: KeyView) -> Seq<Seq<Seq<char>>> {
    let cache = mod_cache(env);
    let escaped = flat(key.name, escaped_char());
    let download = child(child(child(cache, "cache/download"@), escaped), "@v"@);
    seq![
        child(cache, escaped + "@"@ + key.version),
        child(download, key.version + ".zip"@),
        child(download, key.version + ".mod"@),
        child(download, key.version + ".info"@),
    ]
}

/// Where the module cache keeps a module: its sources and the files of its download, as far as they
/// exist.
pub fn go_module_cache(key: &Key, env: &ResolveEnv, disk: &mut Disk) -> (r: Vec<FilePath>)
    requires
        old(disk).wf(),
    ensures
        final(disk).asked(*old(disk)),
        final(disk).holds() ==> r.deep_view() == existing(old(disk)@, module_paths(env@, key@)),
{
    let cache = go_module_cache_dir(env);
    let escaped = escape_module_path(key.name.as_str());
    let download = cache.child("cache/download").child(escaped.as_str()).child("@v");
    let mut paths: Vec<FilePath> = Vec::new();
    put_path(&mut paths, cache.child(cat3(escaped.as_str(), "@", key.version.as_str()).as_str()));
    put_path(&mut paths, download.child(cat2(key.version.as_str(), ".zip").as_str()));
    put_path(&mut paths, download.child(cat2(key.version.as_str(), ".mod").as_str()));
    put_path(&mut paths, download.child(cat2(key.version.as_str(), ".info").as_str()));
    assert(paths.deep_view() =~= module_paths(env@, key@));
    keep_existing(disk, paths)
}

/// The cache of a project's sessions.
pub open spec fn cli_cache(agent: AgentNames, home: Seq<Seq<char>>, root: Seq<Seq<char>>) -> Seq<
    Seq<char>,
> {
    child(child(child(home, "Library/Caches"@), agent.cli_cache@), encoded_dir(root))
}

/// The cache of a project's sessions, where it exists.
pub fn claude_cli_cache(project: &Project, env: &ResolveEnv, disk: &mut Disk) -> (r: Vec<FilePath>)
    requires
        old(disk).wf(),
    ensures
        final(disk).asked(*old(disk)),
        final(disk).holds() ==> r.deep_view() == existing(
            old(disk)@,
            seq![cli_cache(env@.agent, env@.home, project@.root)],
        ),
{
    let encoded = encode_claude_project_dir(&project.root);
    let mut paths: Vec<FilePath> = Vec::new();
    put_path(
        &mut paths,
        env.home.child("Library/Caches").child(env.agent.cli_cache).child(encoded.as_str()),
    );
    assert(paths.deep_view() =~= seq![cli_cache(env@.agent, env@.home, project@.root)]);
    keep_existing(disk, paths)
}

/// The directories in which caches are named after projects.
pub open spec fn cache_parents() -> Seq<Seq<char>> {
    seq![
        "Library/Caches"@,
        "Library/HTTPStorages"@,
        "Library/WebKit"@,
        "Library/Application Support"@,
        "Library/Logs"@,
        ".cache"@,
        ".config"@,
        ".local/share"@,
    ]
}

/// Names that say nothing.
pub open spec fn generic_name(s: Seq<char>) -> bool {
    ||| s == "app"@
    ||| s == "web"@
    ||| s == "api"@
    ||| s == "test"@
    ||| s == "demo"@
    ||| s == "src"@
    ||| s == "ui"@
    ||| s == "cli"@
    ||| s == "core"@
    ||| s == "lib"@
    ||| s == "main"@
}

pub(crate) fn is_generic(s: &str) -> (r: bool)
    ensures
        r == generic_name(s@),
{
    same(s, "app") || same(s, "web") || same(s, "api") || same(s, "test") || same(s, "demo")
        || same(s, "src") || same(s, "ui") || same(s, "cli") || same(s, "core") || same(s, "lib")
        || same(s, "main")
}

/// The forms in which a name may stand for a cache: in small letters, and with `_` for `-` or the
/// other way round.
pub open spec fn name_variants(name: Seq<char>) -> Seq<Seq<char>> {
    let l = lowered(name);
    seq![l] + (if has_char(l, '-') {
        seq![swapped(l, '-', '_')]
    } else {
        seq![]
    }) + (if has_char(l, '_') {
        seq![swapped(l, '_', '-')]
    } else {
        seq![]
    })
}

/// Whether a name is long enough and says enough to stand for a cache.
pub open spec fn telling_name(name: Seq<char>) -> bool {
    byte_len(lowered(name)) >= 4 && !generic_name(lowered(name))
}

/// The path of a directory whose name is a form of the project's.
pub open spec fn named_cache(parent: Seq<Seq<char>>, variants: Seq<Seq<char>>) -> spec_fn(
    Seq<char>,
) -> Option<Seq<Seq<char>>> {
    |n: Seq<char>|
        if variants.contains(lowered(n)) {
            Some(child(parent, n))
        } else {
            None
        }
}

/// The directories in `rel` whose names are forms of the project's.
pub open spec fn caches_in(
    trees: Seq<TreeView>,
    home: Seq<Seq<char>>,
    variants: Seq<Seq<char>>,
) -> spec_fn(Seq<char>) -> Seq<Seq<Seq<char>>> {
    |rel: Seq<char>|
        dirs_in(trees, child(home, rel)).filter_map(named_cache(child(home, rel), variants))
}

/// The caches that are named after a project.
pub open spec fn name_caches(env: EnvView, name: Seq<char>) -> Seq<Seq<Seq<char>>> {
    if telling_name(name) {
        flat(cache_parents(), caches_in(env.trees, env.home, name_variants(name)))
    } else {
        seq![]
    }
}

pub(crate) fn cache_parent_dirs() -> (r: Vec<&'static str>)
    ensures
        r.deep_view() == cache_parents(),
{
    let r = vec![
        "Library/Caches",
        "Library/HTTPStorages",
        "Library/WebKit",
        "Library/Application Support",
        "Library/Logs",
        ".cache",
        ".config",
        ".local/share",
    ];
    assert(r.deep_view() =~= cache_parents());
    r
}

pub(crate) fn variants_of(name: &str) -> (r: Vec<String>)
    ensures
        r.deep_view() == name_variants(name@),
{
    let c = chars_of(name);
    let l = lower_text(c.as_slice());
    let mut out: Vec<String> = Vec::new();
    put_text(&mut out, string_of(l.as_slice()));
    if holds_char(l.as_slice(), '-') {
        put_text(&mut out, string_of(swap_char(l.as_slice(), '-', '_').as_slice()));
    }
    if holds_char(l.as_slice(), '_') {
        put_text(&mut out, string_of(swap_char(l.as_slice(), '_', '-').as_slice()));
    }
    assert(out.deep_view() =~= name_variants(name@));
    out
}

fn put_named_caches(env: &ResolveEnv, rel: &str, variants: &Vec<String>, out: &mut Vec<FilePath>)
    ensures
        final(out).deep_view() == old(out).deep_view() + caches_in(
            env@.trees,
            env@.home,
            variants.deep_view(),
        )(rel@),
{
    let ghost was = out.deep_view();
    let parent = env.home.child(rel);
    let names = tree_child_names(&env.trees, &parent);
    let ghost all = names.deep_view();
    let ghost pick = named_cache(parent@, variants.deep_view());
    let mut i: usize = 0;
    proof {
        lemma_filter_map_start(all, pick);
        assert(out.deep_view() =~= was + all.take(0).filter_map(pick));
    }
    while i < names.len()
        invariant
            i <= names.len(),
            all == names.deep_view(),
            pick == named_cache(parent@, variants.deep_view()),
            out.deep_view() == was + all.take(i as int).filter_map(pick),
        decreases names.len() - i,
    {
        proof {
            assert(all[i as int] == names@[i as int]@);
            all.lemma_filter_map_take_succ(pick, i as int);
        }
        let c = chars_of(names[i].as_str());
        let l = string_of(lower_text(c.as_slice()).as_slice());
        if listed(variants, l.as_str()) {
            put_path(out, parent.child(names[i].as_str()));
        }
        assert(out.deep_view() =~= was + all.take(i + 1).filter_map(pick));
        i = i + 1;
    }
    assert(all.take(i as int) =~= all);
}

/// The caches that are named after a project, in small letters and with `-` and `_` alike. A name
/// of fewer than four bytes, or one that many things have, stands for nothing.
pub fn project_name_cache(key: &Key, env: &ResolveEnv) -> (r: Vec<FilePath>)
    ensures
        r.deep_view() == name_caches(env@, key@.name),
{
    let c = chars_of(key.name.as_str());
    let l = string_of(lower_text(c.as_slice()).as_slice());
    let mut out: Vec<FilePath> = Vec::new();
    if l.as_str().len() < 4 || is_generic(l.as_str()) {
        assert(out.deep_view() =~= name_caches(env@, key@.name));
        return out;
    }
    let variants = variants_of(key.name.as_str());
    let parents = cache_parent_dirs();
    let ghost all = parents.deep_view();
    let ghost f = caches_in(env@.trees, env@.home, variants.deep_view());
    let mut i: usize = 0;
    proof {
        lemma_flat_start(all, f);
        assert(out.deep_view() =~= flat(all.take(0), f));
    }
    while i < parents.len()
        invariant
            i <= parents.len(),
            all == parents.deep_view(),
            f == caches_in(env@.trees, env@.home, variants.deep_view()),
            out.deep_view() == flat(all.take(i as int), f),
        decreases parents.len() - i,
    {
        proof {
            assert(all[i as int] == parents@[i as int]@);
            lemma_flat_step(all, f, i as int);
        }
        put_named_caches(env, parents[i], &variants, &mut out);
        i = i + 1;
    }
    assert(all.take(i as int) =~= all);
    out
}

/// Whether a directory's name is `name`, a dot or a dash, and more behind the last of these.
pub open spec fn jetbrains_named(dir: Seq<char>, name: Seq<char>) -> bool {
    ||| after_last(dir, '.') > 0 && dir.take(after_last(dir, '.') - 1) == name
    ||| after_last(dir, '-') > 0 && dir.take(after_last(dir, '-') - 1) == name
}

/// Whether a directory's name is `name` with a hash behind a dot or a dash.
pub fn jetbrains_name_matches(dir_name: &str, name: &str) -> (r: bool)
    ensures
        r == jetbrains_named(dir_name@, name@),
{
    let c = chars_of(dir_name);
    let k = find_last(c.as_slice(), '.');
    if k > 0 {
        let p = slice_subrange(c.as_slice(), 0, k - 1);
        assert(p@ =~= dir_name@.take(k - 1));
        if same(string_of(p).as_str(), name) {
            return true;
        }
    }
    let k = find_last(c.as_slice(), '-');
    if k > 0 {
        let p = slice_subrange(c.as_slice(), 0, k - 1);
        assert(p@ =~= dir_name@.take(k - 1));
        if same(string_of(p).as_str(), name) {
            return true;
        }
    }
    false
}

/// The path of a directory that is named after a project.
pub open spec fn jetbrains_entry(dir: Seq<Seq<char>>, name: Seq<char>) -> spec_fn(
    (Seq<char>, NodeKind),
) -> Option<Seq<Seq<char>>> {
    |e: (Seq<char>, NodeKind)|
        if e.1 == NodeKind::Dir && jetbrains_named(e.0, name) {
            Some(child(dir, e.0))
        } else {
            None
        }
}

/// The directories of one editor that are named after a project.
pub open spec fn jetbrains_in(disk: DiskView, name: Seq<char>) -> spec_fn(Seq<Seq<char>>) -> Seq<
    Seq<Seq<char>>,
> {
    |dir: Seq<Seq<char>>|
        match disk.list(dir) {
            Some(entries) => entries.filter_map(jetbrains_entry(dir, name)),
            None => seq![],
        }
}

/// The directories of all editors that are named after a project.
pub open spec fn jetbrains_paths(disk: DiskView, home: Seq<Seq<char>>, name: Seq<char>) -> Seq<
    Seq<Seq<char>>,
> {
    flat(
        entry_paths(disk, child(home, "Library/Caches/JetBrains"@), true),
        jetbrains_in(disk, name),
    ) + flat(
        entry_paths(disk, child(home, "Library/Application Support/JetBrains"@), true),
        jetbrains_in(disk, name),
    )
}

fn editor_dirs(disk: &mut Disk, dir: &FilePath, name: &str) -> (r: Vec<FilePath>)
    requires
        old(disk).wf(),
    ensures
        final(disk).asked(*old(disk)),
        final(disk).holds() ==> r.deep_view() == jetbrains_in(old(disk)@, name@)(dir@),
{
    let mut out: Vec<FilePath> = Vec::new();
    match disk.list(dir) {
        Some(entries) => {
            let ghost all = entries.deep_view();
            let ghost pick = jetbrains_entry(dir@, name@);
            let mut i: usize = 0;
            proof {
                lemma_filter_map_start(all, pick);
                assert(out.deep_view() =~= all.take(0).filter_map(pick));
            }
            while i < entries.len()
                invariant
                    i <= entries.len(),
                    all == entries.deep_view(),
                    pick == jetbrains_entry(dir@, name@),
                    disk.holds() ==> out.deep_view() == all.take(i as int).filter_map(pick),
                decreases entries.len() - i,
            {
                proof {
                    assert(all[i as int] == entries@[i as int].deep_view());
                    all.lemma_filter_map_take_succ(pick, i as int);
                }
                if entries[i].kind == NodeKind::Dir && jetbrains_name_matches(
                    entries[i].name.as_str(),
                    name,
                ) {
                    put_path(&mut out, dir.child(entries[i].name.as_str()));
                }
                assert(disk.holds() ==> out.deep_view() =~= all.take(i + 1).filter_map(pick));
                i = i + 1;
            }
            assert(all.take(i as int) =~= all);
            out
        },
        None => {
            assert(out.deep_view() =~= seq![]);
            out
        },
    }
}

/// The paths of the directories in a directory.
pub fn list_dirs(disk: &mut Disk, dir: &FilePath) -> (r: Vec<FilePath>)
    requires
        old(disk).wf(),
    ensures
        final(disk).asked(*old(disk)),
        final(disk).holds() ==> r.deep_view() == entry_paths(old(disk)@, dir@, true),
{
    super::templates::list_paths(disk, dir).1
}

fn put_editor_dirs(disk: &mut Disk, root: &FilePath, name: &str, out: &mut Vec<FilePath>)
    requires
        old(disk).wf(),
    ensures
        final(disk).asked(*old(disk)),
        final(disk).holds() ==> final(out).deep_view() == old(out).deep_view() + flat(
            entry_paths(old(disk)@, root@, true),
            jetbrains_in(old(disk)@, name@),
        ),
{
    let ghost facts = disk@;
    let ghost was = out.deep_view();
    let ghost f = jetbrains_in(facts, name@);
    let editors = list_dirs(disk, root);
    let ghost all = editors.deep_view();
    let mut i: usize = 0;
    proof {
        lemma_flat_start(all, f);
        assert(out.deep_view() =~= was + flat(all.take(0), f));
    }
    let ghost start = *disk;
    while i < editors.len()
        invariant
            i <= editors.len(),
            all == editors.deep_view(),
            facts == old(disk)@,
            f == jetbrains_in(facts, name@),
            disk.asked(*old(disk)),
            disk.holds() ==> start.holds(),
            disk.holds() ==> out.deep_view() == was + flat(all.take(i as int), f),
        decreases editors.len() - i,
    {
        proof {
            assert(all[i as int] == editors@[i as int]@);
            lemma_flat_step(all, f, i as int);
        }
        let more = editor_dirs(disk, &editors[i], name);
        put_paths(out, more);
        assert(disk.holds() ==> out.deep_view() =~= was + flat(all.take(i + 1), f));
        i = i + 1;
    }
    assert(all.take(i as int) =~= all);
}

/// The directories of the JetBrains editors that are named after a project.
pub fn jetbrains_dirs(key: &Key, env: &ResolveEnv, disk: &mut Disk) -> (r: Vec<FilePath>)
    requires
        old(disk).wf(),
    ensures
        final(disk).asked(*old(disk)),
        final(disk).holds() ==> r.deep_view() == jetbrains_paths(old(disk)@, env@.home, key@.name),
{
    let mut out: Vec<FilePath> = Vec::new();
    put_editor_dirs(
        disk,
        &env.home.child("Library/Caches/JetBrains"),
        key.name.as_str(),
        &mut out,
    );
    put_editor_dirs(
        disk,
        &env.home.child("Library/Application Support/JetBrains"),
        key.name.as_str(),
        &mut out,
    );
    assert(disk.holds() ==> out.deep_view() =~= jetbrains_paths(old(disk)@, env@.home, key@.name));
    out
}

/// What an entry of the home directory names.
#[derive(Debug)]
pub struct Extracted {
    /// The text, as a path.
    pub path: FilePath,
    /// The text itself.
    pub text: String,
    /// More for the label.
    pub label_extra: Option<String>,
}

/// What an entry of the home directory names, as a value.
#[verifier::ext_equal]
pub struct ExtractedView {
    pub path: Seq<Seq<char>>,
    pub text: Seq<char>,
    pub label_extra: Option<Seq<char>>,
}

impl View for Extracted {
    type V = ExtractedView;

    open spec fn view(&self) -> ExtractedView {
        ExtractedView {
            path: self.path@,
            text: self.text@,
            label_extra: self.label_extra.deep_view(),
        }
    }
}

impl DeepView for Extracted {
    type V = ExtractedView;

    open spec fn deep_view(&self) -> ExtractedView {
        self@
    }
}

/// The document in a property list.
pub open spec fn plist_at(disk: DiskView, p: Seq<Seq<char>>) -> Option<DocView> {
    match disk.bytes(p) {
        Some(bytes) => plist_document(bytes),
        None => None,
    }
}

/// The text under a key in a property list.
pub open spec fn plist_text(disk: DiskView, p: Seq<Seq<char>>, key: Seq<char>) -> Option<
    Seq<char>,
> {
    match plist_at(disk, p) {
        Some(d) => text_field(d, key),
        None => None,
    }
}

/// The text under a key in a property list; nothing where the file is none.
pub fn read_plist_text(disk: &mut Disk, p: &FilePath, key: &str) -> (r: Option<String>)
    requires
        old(disk).wf(),
    ensures
        final(disk).asked(*old(disk)),
        final(disk).holds() ==> r.deep_view() == plist_text(old(disk)@, p@, key@),
{
    match disk.bytes(p) {
        Some(bytes) => {
            assert(bytes.deep_view() =~= bytes@);
            match parse_plist(bytes.as_slice()) {
                Some(d) => match d.text(key) {
                    Some(s) => Some(s.to_owned()),
                    None => None,
                },
                None => None,
            }
        },
        None => None,
    }
}

/// The bundle id of an app in a container.
pub open spec fn app_entry_id(disk: DiskView, dir: Seq<Seq<char>>) -> spec_fn(
    (Seq<char>, NodeKind),
) -> Option<Seq<char>> {
    |e: (Seq<char>, NodeKind)|
        if e.1 == NodeKind::Dir && ends(e.0, ".app"@) {
            plist_text(disk, child(child(dir, e.0), "Info.plist"@), "CFBundleIdentifier"@)
        } else {
            None
        }
}

/// The bundle id that a simulator's container belongs to: the one in its metadata, or else that of
/// the first app in it that has one.
pub open spec fn container_id(disk: DiskView, dir: Seq<Seq<char>>) -> Option<Seq<char>> {
    let meta = plist_text(
        disk,
        child(dir, ".com.apple.mobile_container_manager.metadata.plist"@),
        "MCMMetadataIdentifier"@,
    );
    if meta is Some {
        meta
    } else {
        match disk.list(dir) {
            Some(entries) => first_some(entries, app_entry_id(disk, dir)),
            None => None,
        }
    }
}

pub(crate) fn app_id(disk: &mut Disk, dir: &FilePath) -> (r: Option<String>)
    requires
        old(disk).wf(),
    ensures
        final(disk).asked(*old(disk)),
        final(disk).holds() ==> r.deep_view() == (match old(disk)@.list(dir@) {
            Some(entries) => first_some(entries, app_entry_id(old(disk)@, dir@)),
            None => None,
        }),
{
    let ghost facts = disk@;
    let ghost f = app_entry_id(facts, dir@);
    match disk.list(dir) {
        Some(entries) => {
            let ghost all = entries.deep_view();
            let mut i: usize = 0;
            assert(all.skip(0) =~= all);
            while i < entries.len()
                invariant
                    i <= entries.len(),
                    all == entries.deep_view(),
                    facts == old(disk)@,
                    f == app_entry_id(facts, dir@),
                    disk.holds() ==> facts.list(dir@) == Some(all),
                    disk.asked(*old(disk)),
                    disk.holds() ==> first_some(all, f) == first_some(all.skip(i as int), f),
                decreases entries.len() - i,
            {
                proof {
                    assert(all[i as int] == entries@[i as int].deep_view());
                    lemma_first_some_step(all, f, i as int);
                }
                let name = entries[i].name.as_str();
                if entries[i].kind == NodeKind::Dir && str_ends(name, ".app") {
                    let id = read_plist_text(
                        disk,
                        &dir.child(name).child("Info.plist"),
                        "CFBundleIdentifier",
                    );
                    if id.is_some() {
                        return id;
                    }
                }
                i = i + 1;
            }
            None
        },
        None => None,
    }
}

/// The place of the first component `Devices`.
pub open spec fn devices_place(p: Seq<Seq<char>>, i: int) -> Option<int>
    decreases p.len() - i,
{
    if i < 0 || i >= p.len() {
        None
    } else if p[i] == "Devices"@ {
        Some(i)
    } else {
        devices_place(p, i + 1)
    }
}

/// The simulator that a container lies in: the component behind the first `Devices`.
pub open spec fn device_of(p: Seq<Seq<char>>) -> Option<Seq<Seq<char>>> {
    match devices_place(p, 0) {
        Some(i) => if i + 2 <= p.len() {
            Some(p.take(i + 2))
        } else {
            Some(p)
        },
        None => None,
    }
}

/// The simulator that a container lies in.
pub fn device_dir_ancestor(container_dir: &FilePath) -> (r: Option<FilePath>)
    ensures
        r.deep_view() == device_of(container_dir@),
{
    let ghost p = container_dir@;
    let mut i: usize = 0;
    while i < container_dir.comps.len()
        invariant
            i <= container_dir.comps.len(),
            p == container_dir@,
            devices_place(p, 0) == devices_place(p, i as int),
        decreases container_dir.comps.len() - i,
    {
        assert(p[i as int] == container_dir.comps@[i as int]@);
        if same(container_dir.comps[i].as_str(), "Devices") {
            let mut r = container_dir.copy();
            assert(r@.len() == r.comps.len());
            if container_dir.comps.len() - i > 2 {
                r.comps.truncate(i + 2);
                assert(r@ =~= p.take(i + 2));
            } else if container_dir.comps.len() - i == 2 {
                assert(p.take(i + 2) =~= p);
            }
            return Some(r);
        }
        i = i + 1;
    }
    None
}

/// A runtime in a short form: `iOS 17.0` for `...SimRuntime.iOS-17-0`.
pub open spec fn runtime_text(runtime: Seq<char>) -> Seq<char> {
    match rfind_sub(runtime, "SimRuntime."@) {
        Some(i) => {
            let rest = runtime.skip(i + "SimRuntime."@.len());
            let k = index_of(rest, '-') as int;
            if k < rest.len() {
                rest.take(k) + " "@ + swapped(rest.skip(k + 1), '-', '.')
            } else {
                rest
            }
        },
        None => runtime,
    }
}

/// A runtime in a short form: `iOS 17.0` for `...SimRuntime.iOS-17-0`.
pub fn format_runtime_identifier(runtime: &str) -> (r: String)
    ensures
        r@ == runtime_text(runtime@),
{
    let c = chars_of(runtime);
    match rfind_text(c.as_slice(), "SimRuntime.") {
        Some(i) => {
            let p = chars_of("SimRuntime.");
            let n = c.len();
            assert(occurs_at(c@, p@, i as int));
            assert(i + p@.len() <= n);
            let rest = slice_subrange(c.as_slice(), i + p.len(), n);
            assert(rest@ =~= runtime@.skip(i + "SimRuntime."@.len()));
            let k = find_char(rest, '-');
            if k < rest.len() {
                let platform = slice_subrange(rest, 0, k);
                let version = slice_subrange(rest, k + 1, rest.len());
                assert(platform@ =~= rest@.take(k as int));
                assert(version@ =~= rest@.skip(k + 1));
                let v = swap_char(version, '-', '.');
                cat3(string_of(platform).as_str(), " ", string_of(v.as_slice()).as_str())
            } else {
                string_of(rest)
            }
        },
        None => runtime.to_owned(),
    }
}

/// The name at the end of a path, or nothing.
pub open spec fn end_name(p: Seq<Seq<char>>) -> Seq<char> {
    match file_name(p) {
        Some(n) => n,
        None => seq![],
    }
}

/// The name at the end of a path, or nothing.
pub fn end_of(p: &FilePath) -> (r: String)
    ensures
        r@ == end_name(p@),
{
    match p.file_name() {
        Some(n) => n.to_owned(),
        None => {
            let r = String::new();
            assert(r@ =~= seq![]);
            r
        },
    }
}

/// What a simulator is called: its name, and its runtime where that is known.
pub open spec fn device_label(disk: DiskView, dir: Seq<Seq<char>>) -> Seq<char> {
    let file = child(dir, "device.plist"@);
    let name = match plist_text(disk, file, "name"@) {
        Some(n) => n,
        None => end_name(dir),
    };
    match plist_text(disk, file, "runtime"@) {
        Some(runtime) => name + " ("@ + runtime_text(runtime) + ")"@,
        None => name,
    }
}

/// What a simulator is called: the name in its `device.plist`, or that of its directory, and the
/// runtime where that is known.
pub fn simulator_device_label(device_dir: &FilePath, disk: &mut Disk) -> (r: String)
    requires
        old(disk).wf(),
    ensures
        final(disk).asked(*old(disk)),
        final(disk).holds() ==> r@ == device_label(old(disk)@, device_dir@),
{
    let file = device_dir.child("device.plist");
    let name = match read_plist_text(disk, &file, "name") {
        Some(n) => n,
        None => end_of(device_dir),
    };
    match read_plist_text(disk, &file, "runtime") {
        Some(runtime) => cat4(
            name.as_str(),
            " (",
            format_runtime_identifier(runtime.as_str()).as_str(),
            ")",
        ),
        None => name,
    }
}

/// The bundle id that a simulator's container belongs to, with what the simulator is called.
pub open spec fn container_extract(disk: DiskView, dir: Seq<Seq<char>>) -> Option<ExtractedView> {
    match (container_id(disk, dir), device_of(dir)) {
        (Some(id), Some(device)) => Some(
            ExtractedView {
                path: crate::fspath::path_of(id),
                text: id,
                label_extra: Some(device_label(disk, device)),
            },
        ),
        _ => None,
    }
}

/// The bundle id that a simulator's container belongs to, with what the simulator is called.
pub fn container_bundle_id(container_dir: &FilePath, disk: &mut Disk) -> (r: Option<Extracted>)
    requires
        old(disk).wf(),
    ensures
        final(disk).asked(*old(disk)),
        final(disk).holds() ==> r.deep_view() == container_extract(old(disk)@, container_dir@),
{
    let meta = read_plist_text(
        disk,
        &container_dir.child(".com.apple.mobile_container_manager.metadata.plist"),
        "MCMMetadataIdentifier",
    );
    let id = if meta.is_some() {
        meta
    } else {
        app_id(disk, container_dir)
    };
    match id {
        Some(id) => match device_dir_ancestor(container_dir) {
            Some(device) => {
                let label = simulator_device_label(&device, disk);
                Some(
                    Extracted {
                        path: FilePath::from_text(id.as_str()),
                        text: id,
                        label_extra: Some(label),
                    },
                )
            },
            None => None,
        },
        None => None,
    }
}

/// What an entry of the agent's directory is called.
pub fn claude_state_label(title: &str, path: &FilePath) -> (r: String)
    ensures
        r@ == title@ + " "@ + end_name(path@),
{
    cat3(title, " ", end_of(path).as_str())
}

} // verus!
