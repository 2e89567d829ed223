//! Paths in the form that the walked trees use, and the sizes of paths.

use vstd::prelude::*;
use vstd::slice::slice_subrange;
use vstd::utf8::{encode_utf8, valid_utf8};

use crate::disk::{Disk, DiskView};
use crate::fspath::{file_name, joined, path_of, root, under, FilePath};
use crate::pathmap::PathMap;
use crate::scan::{dir_at, opt_dir, DirNode, DirTree, DirView, TreeView};
use crate::text::{cat2, chars_of, find_char, index_of, same, starts, string_of, strip_prefix};

verus! {

broadcast use crate::disk::group_asks;

/// Where the data volume is mounted.
pub open spec fn data_volume() -> Seq<Seq<char>> {
    path_of("/System/Volumes/Data"@)
}

/// A path that leads through the data volume's mount point, seen from the root.
pub open spec fn off_data_volume(p: Seq<Seq<char>>) -> Seq<Seq<char>> {
    if under(p, data_volume()) {
        joined(path_of("/"@), p.skip(data_volume().len() as int))
    } else {
        p
    }
}

/// Whether a path begins with one of the three links into `/private`.
pub open spec fn in_private(p: Seq<Seq<char>>) -> bool {
    under(p, path_of("/var"@)) || under(p, path_of("/tmp"@)) || under(p, path_of("/etc"@))
}

/// A path through one of the three links, where it really leads.
pub open spec fn through_private(p: Seq<Seq<char>>) -> Seq<Seq<char>> {
    if in_private(p) && under(p, path_of("/"@)) {
        joined(path_of("/private"@), p.skip(path_of("/"@).len() as int))
    } else {
        p
    }
}

/// The directory that a git directory belongs to; every other path stays.
pub open spec fn off_git(p: Seq<Seq<char>>) -> Seq<Seq<char>> {
    if file_name(p) == Some(".git"@) {
        p.drop_last()
    } else {
        p
    }
}

/// A path in the form that the walked trees use.
pub open spec fn canonical(p: Seq<Seq<char>>) -> Seq<Seq<char>> {
    off_git(through_private(off_data_volume(p)))
}

/// The path in the form that the walked trees use: not through the data volume's mount point, not
/// through `/var`, `/tmp` or `/etc`, and a repository rather than its `.git`.
pub fn tree_path(p: &FilePath) -> (r: FilePath)
    ensures
        r@ == canonical(p@),
{
    let top = FilePath::from_text("/");
    let q = match p.strip_prefix(&FilePath::from_text("/System/Volumes/Data")) {
        Some(rest) => top.join(&rest),
        None => p.copy(),
    };
    let moved = q.under(&FilePath::from_text("/var")) || q.under(&FilePath::from_text("/tmp"))
        || q.under(&FilePath::from_text("/etc"));
    let mut s = q;
    if moved {
        match s.strip_prefix(&top) {
            Some(rest) => {
                s = FilePath::from_text("/private").join(&rest);
            },
            None => {},
        }
    }
    let is_git = match s.file_name() {
        Some(n) => same(n, ".git"),
        None => false,
    };
    if is_git {
        match s.parent() {
            Some(up) => up,
            None => {
                proof {
                    assert(s@.last() == root());
                    assert(root().len() == 1);
                    reveal_strlit(".git");
                }
                s
            },
        }
    } else {
        s
    }
}

/// A path that names no special place is its own canonical form.
pub proof fn law_canonical_keeps_ordinary_paths(p: Seq<Seq<char>>)
    requires
        !under(p, data_volume()),
        !in_private(p),
        file_name(p) != Some(".git"@),
    ensures
        canonical(p) == p,
{
}

/// The digit that a byte spells in base sixteen.
pub open spec fn hex_digit(b: u8) -> Option<u8> {
    if 48 <= b <= 57 {
        Some((b - 48) as u8)
    } else if 97 <= b <= 102 {
        Some((b - 87) as u8)
    } else if 65 <= b <= 70 {
        Some((b - 55) as u8)
    } else {
        None
    }
}

fn hex_value(b: u8) -> (r: Option<u8>)
    ensures
        r == hex_digit(b),
        r is Some ==> r->0 < 16,
{
    if 48 <= b && b <= 57 {
        Some(b - 48)
    } else if 97 <= b && b <= 102 {
        Some(b - 87)
    } else if 65 <= b && b <= 70 {
        Some(b - 55)
    } else {
        None
    }
}

/// Whether an escape stands at `i`: a percent sign and two hexadecimal digits.
pub open spec fn escape_at(s: Seq<u8>, i: int) -> bool {
    &&& s[i] == 37
    &&& i + 2 < s.len()
    &&& hex_digit(s[i + 1]) is Some
    &&& hex_digit(s[i + 2]) is Some
}

/// The bytes from `i` on, with every escape turned into the byte that it stands for.
pub open spec fn unescaped(s: Seq<u8>, i: int) -> Seq<u8>
    decreases s.len() - i,
{
    if i < 0 || i >= s.len() {
        seq![]
    } else if escape_at(s, i) {
        seq![(hex_digit(s[i + 1])->0 * 16 + hex_digit(s[i + 2])->0) as u8] + unescaped(s, i + 3)
    } else {
        seq![s[i]] + unescaped(s, i + 1)
    }
}

/// The text that bytes spell when what is no UTF-8 is replaced.
pub uninterp spec fn lossy_text(bytes: Seq<u8>) -> Seq<char>;

/// `String::from_utf8_lossy`: bytes that are UTF-8 keep their text; what others give is named
/// `lossy_text`.
#[verifier::external_body]
pub(crate) fn text_of_bytes(bytes: &[u8]) -> (r: String)
    ensures
        r@ == lossy_text(bytes@),
        valid_utf8(bytes@) ==> encode_utf8(r@) == bytes@,
{
    String::from_utf8_lossy(bytes).into_owned()
}

/// The text of the first bytes of a file; what is no UTF-8 is replaced.
pub fn head_text(bytes: &Vec<u8>) -> (r: String)
    ensures
        r@ == lossy_text(bytes@),
        valid_utf8(bytes@) ==> encode_utf8(r@) == bytes@,
{
    text_of_bytes(bytes.as_slice())
}

fn percent_decode(s: &str) -> (r: String)
    ensures
        r@ == lossy_text(unescaped(encode_utf8(s@), 0)),
        valid_utf8(unescaped(encode_utf8(s@), 0)) ==> encode_utf8(r@) == unescaped(
            encode_utf8(s@),
            0,
        ),
{
    let bytes = s.as_bytes();
    let mut out: Vec<u8> = Vec::new();
    let mut i: usize = 0;
    assert(out@ + unescaped(bytes@, 0) =~= unescaped(bytes@, 0));
    while i < bytes.len()
        invariant
            i <= bytes.len(),
            out@ + unescaped(bytes@, i as int) == unescaped(bytes@, 0),
        decreases bytes.len() - i,
    {
        let ghost was = out@;
        if bytes[i] == 37 && bytes.len() - i > 2 {
            let hi = hex_value(bytes[i + 1]);
            let lo = hex_value(bytes[i + 2]);
            if let (Some(h), Some(l)) = (hi, lo) {
                out.push(h * 16 + l);
                assert(out@ + unescaped(bytes@, i + 3) =~= was + unescaped(bytes@, i as int));
                i = i + 3;
                continue;
            }
        }
        out.push(bytes[i]);
        assert(out@ + unescaped(bytes@, i + 1) =~= was + unescaped(bytes@, i as int));
        i = i + 1;
    }
    assert(out@ =~= unescaped(bytes@, 0));
    text_of_bytes(out.as_slice())
}

/// The path part of a `file://` URI, without its leading slash.
pub open spec fn uri_path(uri: Seq<char>) -> Option<Seq<char>> {
    if !starts(uri, "file://"@) {
        None
    } else {
        let rest = uri.skip("file://"@.len() as int);
        if index_of(rest, '/') < rest.len() {
            Some(rest.skip(index_of(rest, '/') as int + 1))
        } else {
            None
        }
    }
}

/// The path that a `file://` URI names; nothing for any other text.
pub open spec fn uri_target(uri: Seq<char>) -> Option<Seq<Seq<char>>> {
    match uri_path(uri) {
        Some(p) => Some(path_of("/"@ + lossy_text(unescaped(encode_utf8(p), 0)))),
        None => None,
    }
}

/// The path that a `file://` URI names: escapes are resolved, a host before the path is skipped.
/// Where the bytes behind the escapes are UTF-8, the path is the text that they spell.
pub fn from_file_uri(uri: &str) -> (r: Option<FilePath>)
    ensures
        r.deep_view() == uri_target(uri@),
        uri_path(uri@) is Some && valid_utf8(unescaped(encode_utf8(uri_path(uri@)->0), 0))
            ==> exists|t: Seq<char>| #[trigger]
            encode_utf8(t) == unescaped(encode_utf8(uri_path(uri@)->0), 0) && r.deep_view() == Some(
                path_of("/"@ + t),
            ),
{
    let c = chars_of(uri);
    match strip_prefix(c.as_slice(), "file://") {
        Some(rest) => {
            let k = find_char(rest, '/');
            if k >= rest.len() {
                return None;
            }
            let tail = slice_subrange(rest, k + 1, rest.len());
            assert(tail@ =~= rest@.skip(k + 1));
            let decoded = percent_decode(string_of(tail).as_str());
            let text = cat2("/", decoded.as_str());
            Some(FilePath::from_text(text.as_str()))
        },
        None => None,
    }
}

/// The size of a path.
#[derive(Clone, Copy, Debug, PartialEq, Eq, Structural)]
pub enum Sized {
    /// A directory of a walked tree: the bytes of its whole subtree.
    Dir(u64),
    /// A regular file outside every tree: the bytes that it takes on disk.
    File(u64),
    /// Neither: the path is missing, or a directory that no walk has read.
    Unsized,
}

impl DeepView for Sized {
    type V = Sized;

    open spec fn deep_view(&self) -> Sized {
        *self
    }
}

/// The directory at `p` in the first tree that has it.
pub open spec fn node_in(trees: Seq<TreeView>, p: Seq<Seq<char>>) -> Option<DirView>
    decreases trees.len(),
{
    if trees.len() == 0 {
        None
    } else {
        let here = if under(p, trees[0].root) {
            dir_at(trees[0].node, p.skip(trees[0].root.len() as int))
        } else {
            None
        };
        if here is Some {
            here
        } else {
            node_in(trees.skip(1), p)
        }
    }
}

/// The size of `p`.
pub open spec fn size_at(trees: Seq<TreeView>, disk: DiskView, p: Seq<Seq<char>>) -> Sized {
    match node_in(trees, p) {
        Some(node) => if node.errors > 0 && node.alloc == 0 {
            Sized::Unsized
        } else {
            Sized::Dir(node.alloc)
        },
        None => match disk.size(p) {
            Some(bytes) => Sized::File(bytes),
            None => Sized::Unsized,
        },
    }
}

/// The directory at `path` in the first tree that has it.
pub fn node_at<'t>(trees: &'t Vec<DirTree>, path: &FilePath) -> (r: Option<&'t DirNode>)
    ensures
        opt_dir(r) == node_in(trees.deep_view(), path@),
{
    let ghost all = trees.deep_view();
    let mut i: usize = 0;
    assert(all.skip(0) =~= all);
    while i < trees.len()
        invariant
            i <= trees.len(),
            all == trees.deep_view(),
            node_in(all, path@) == node_in(all.skip(i as int), path@),
        decreases trees.len() - i,
    {
        assert(all.skip(i as int)[0] == trees@[i as int]@);
        assert(all.skip(i as int).skip(1) =~= all.skip(i + 1));
        match trees[i].node.find(&trees[i].root, path) {
            Some(node) => {
                return Some(node);
            },
            None => {},
        }
        i = i + 1;
    }
    None
}

/// Path sizes, each looked up once.
#[derive(Debug)]
pub struct Sizer<'a> {
    pub trees: &'a Vec<DirTree>,
    /// The sizes that were looked up.
    pub memo: PathMap<Sized>,
}

impl<'a> Sizer<'a> {
    /// Every remembered size is the size.
    pub open spec fn wf(self, disk: Disk) -> bool {
        &&& self.memo.wf()
        &&& forall|p: Seq<Seq<char>>| #[trigger]
            self.memo@.contains_key(p) ==> self.memo@[p] == size_at(
                self.trees.deep_view(),
                disk.facts(),
                p,
            )
        &&& disk.holds() ==> forall|p: Seq<Seq<char>>| #[trigger]
            self.memo@.contains_key(p) ==> self.memo@[p] == size_at(
                self.trees.deep_view(),
                disk@,
                p,
            )
    }

    /// Nothing is remembered yet.
    pub fn new(trees: &'a Vec<DirTree>) -> (r: Sizer<'a>)
        ensures
            r.trees == trees,
            forall|disk: Disk| r.wf(disk),
            r.memo@ == Map::<Seq<Seq<char>>, Sized>::empty(),
    {
        Sizer { trees, memo: PathMap::new() }
    }

    /// The size of `path`, which is remembered from now on.
    pub fn bytes_of(&mut self, disk: &mut Disk, path: &FilePath) -> (r: Sized)
        requires
            old(disk).wf(),
            old(self).wf(*old(disk)),
        ensures
            final(disk).asked(*old(disk)),
            final(self).wf(*final(disk)),
            final(self).trees == old(self).trees,
            r == size_at(old(self).trees.deep_view(), old(disk).facts(), path@),
            final(disk).holds() ==> r == size_at(
                old(self).trees.deep_view(),
                old(disk)@,
                path@,
            ),
            final(self).memo@ == old(self).memo@.insert(path@, r),
    {
        if let Some(known) = self.memo.get(path) {
            let r = *known;
            assert(self.memo@ =~= self.memo@.insert(path@, r));
            return r;
        }
        let r = self.compute(disk, path);
        self.memo.insert_new(path.copy(), r);
        r
    }

    fn compute(&self, disk: &mut Disk, path: &FilePath) -> (r: Sized)
        requires
            old(disk).wf(),
        ensures
            final(disk).asked(*old(disk)),
            r == size_at(self.trees.deep_view(), old(disk).facts(), path@),
            final(disk).holds() ==> r == size_at(self.trees.deep_view(), old(disk)@, path@),
    {
        match node_at(self.trees, path) {
            Some(node) => if node.errors > 0 && node.alloc == 0 {
                Sized::Unsized
            } else {
                Sized::Dir(node.alloc)
            },
            None => match disk.size(path) {
                Some(bytes) => Sized::File(bytes),
                None => Sized::Unsized,
            },
        }
    }
}

/// The bytes of all trees together.
pub open spec fn trees_total(trees: Seq<TreeView>) -> nat
    decreases trees.len(),
{
    if trees.len() == 0 {
        0
    } else {
        trees_total(trees.drop_last()) + trees.last().bytes as nat
    }
}

proof fn lemma_trees_total_grows(trees: Seq<TreeView>, n: int)
    requires
        0 <= n <= trees.len(),
    ensures
        trees_total(trees.take(n)) <= trees_total(trees),
    decreases trees.len() - n,
{
    if n < trees.len() {
        lemma_trees_total_grows(trees, n + 1);
        assert(trees.take(n + 1).drop_last() =~= trees.take(n));
    } else {
        assert(trees.take(n) =~= trees);
    }
}

/// The bytes of all walked roots together.
pub fn disk_total(trees: &Vec<DirTree>) -> (r: u64)
    requires
        trees_total(trees.deep_view()) <= u64::MAX,
    ensures
        r == trees_total(trees.deep_view()),
{
    let ghost all = trees.deep_view();
    let mut sum: u64 = 0;
    let mut i: usize = 0;
    while i < trees.len()
        invariant
            i <= trees.len(),
            all == trees.deep_view(),
            trees_total(all) <= u64::MAX,
            sum == trees_total(all.take(i as int)),
        decreases trees.len() - i,
    {
        proof {
            assert(all.take(i + 1).drop_last() =~= all.take(i as int));
            assert(all.take(i + 1).last() == trees@[i as int]@);
            lemma_trees_total_grows(all, i + 1);
        }
        sum = sum + trees[i].bytes;
        i = i + 1;
    }
    assert(all.take(i as int) =~= all);
    sum
}

/// Whether the bytes of all walked roots together fit a number.
pub fn trees_fit(trees: &Vec<DirTree>) -> (r: bool)
    ensures
        r == (trees_total(trees.deep_view()) <= u64::MAX),
{
    let ghost all = trees.deep_view();
    let mut sum: u64 = 0;
    let mut i: usize = 0;
    while i < trees.len()
        invariant
            i <= trees.len(),
            all == trees.deep_view(),
            sum == trees_total(all.take(i as int)),
        decreases trees.len() - i,
    {
        proof {
            assert(all.take(i + 1).drop_last() =~= all.take(i as int));
            assert(all.take(i + 1).last() == trees@[i as int]@);
            lemma_trees_total_grows(all, i + 1);
        }
        if trees[i].bytes > u64::MAX - sum {
            return false;
        }
        sum = sum + trees[i].bytes;
        i = i + 1;
    }
    assert(all.take(i as int) =~= all);
    true
}

} // verus!
