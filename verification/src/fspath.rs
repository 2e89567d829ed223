//! Paths as sequences of components.
//!
//! A path is the sequence of its components; an absolute path's first component is the root,
//! spelled `/`. Repeated slashes, a trailing slash and `.` in the middle leave no component, so
//! two spellings of one path are the same sequence. What a path is spelled like again is the
//! shortest of its spellings; a key that is made from a path's text has that spelling too.

use vstd::prelude::*;

use crate::order::{chars_before, chars_lt, lemma_chars_lt_irreflexive, lemma_chars_lt_total, lemma_chars_lt_transitive};
use crate::text::{chars_of, find_last, same, split, split_at_char, string_of, after_last};
use vstd::slice::slice_subrange;

verus! {

/// A path in the file system.
#[derive(Clone, Debug, PartialEq, Eq)]
pub struct FilePath {
    /// The components, the root first where the path is absolute.
    pub comps: Vec<String>,
}

impl View for FilePath {
    type V = Seq<Seq<char>>;

    open spec fn view(&self) -> Seq<Seq<char>> {
        self.comps.deep_view()
    }
}

impl DeepView for FilePath {
    type V = Seq<Seq<char>>;

    open spec fn deep_view(&self) -> Seq<Seq<char>> {
        self.comps.deep_view()
    }
}

/// The root component.
pub open spec fn root() -> Seq<char> {
    seq!['/']
}

/// The component `.`.
pub open spec fn dot() -> Seq<char> {
    seq!['.']
}

/// The component `..`.
pub open spec fn dot_dot() -> Seq<char> {
    seq!['.', '.']
}

/// Root, `.` and `..` come before every name, in this order.
pub open spec fn rank(c: Seq<char>) -> int {
    if c == root() {
        0
    } else if c == dot() {
        1
    } else if c == dot_dot() {
        2
    } else {
        3
    }
}

/// Whether a component is the name of a file or directory.
pub open spec fn is_name(c: Seq<char>) -> bool {
    rank(c) == 3
}

/// The order of components.
pub open spec fn comp_lt(a: Seq<char>, b: Seq<char>) -> bool {
    rank(a) < rank(b) || (rank(a) == rank(b) && chars_lt(a, b))
}

/// The order of paths: component by component; a path comes before what is below it.
pub open spec fn path_lt(a: Seq<Seq<char>>, b: Seq<Seq<char>>) -> bool
    decreases a.len(),
{
    if b.len() == 0 {
        false
    } else if a.len() == 0 {
        true
    } else if a[0] != b[0] {
        comp_lt(a[0], b[0])
    } else {
        path_lt(a.skip(1), b.skip(1))
    }
}

/// Whether `p` is `base` or lies below it.
pub open spec fn under(p: Seq<Seq<char>>, base: Seq<Seq<char>>) -> bool {
    base.len() <= p.len() && p.take(base.len() as int) == base
}

/// Whether `p` lies strictly below `base`.
pub open spec fn below(p: Seq<Seq<char>>, base: Seq<Seq<char>>) -> bool {
    base.len() < p.len() && p.take(base.len() as int) == base
}

proof fn lemma_comp_lt_transitive(a: Seq<char>, b: Seq<char>, c: Seq<char>)
    requires
        comp_lt(a, b),
        comp_lt(b, c),
    ensures
        comp_lt(a, c),
{
    if rank(a) == rank(b) && rank(b) == rank(c) {
        lemma_chars_lt_transitive(a, b, c);
    }
}

/// No path comes before itself.
pub proof fn lemma_path_lt_irreflexive(a: Seq<Seq<char>>)
    ensures
        !path_lt(a, a),
    decreases a.len(),
{
    if a.len() > 0 {
        lemma_path_lt_irreflexive(a.skip(1));
    }
}

/// The order of paths is transitive.
pub proof fn lemma_path_lt_transitive(a: Seq<Seq<char>>, b: Seq<Seq<char>>, c: Seq<Seq<char>>)
    requires
        path_lt(a, b),
        path_lt(b, c),
    ensures
        path_lt(a, c),
    decreases a.len(),
{
    if a.len() > 0 {
        if a[0] == b[0] && b[0] == c[0] {
            lemma_path_lt_transitive(a.skip(1), b.skip(1), c.skip(1));
        } else if a[0] != b[0] && b[0] != c[0] {
            lemma_comp_lt_transitive(a[0], b[0], c[0]);
            if a[0] == c[0] {
                lemma_chars_lt_irreflexive(a[0]);
            }
        }
    }
}

/// Two different paths are ordered one way or the other.
pub proof fn lemma_path_lt_total(a: Seq<Seq<char>>, b: Seq<Seq<char>>)
    ensures
        a == b || path_lt(a, b) || path_lt(b, a),
    decreases a.len(),
{
    if a.len() == 0 {
        if b.len() == 0 {
            assert(a =~= b);
        }
    } else if b.len() > 0 {
        if a[0] == b[0] {
            lemma_path_lt_total(a.skip(1), b.skip(1));
            if a.skip(1) == b.skip(1) {
                assert(a =~= seq![a[0]] + a.skip(1));
                assert(b =~= seq![b[0]] + b.skip(1));
            }
        } else {
            lemma_chars_lt_total(a[0], b[0]);
        }
    }
}

/// The order goes one way only.
pub proof fn lemma_path_lt_asymmetric(a: Seq<Seq<char>>, b: Seq<Seq<char>>)
    requires
        path_lt(a, b),
    ensures
        !path_lt(b, a),
        a != b,
{
    lemma_path_lt_irreflexive(a);
    if path_lt(b, a) {
        lemma_path_lt_transitive(a, b, a);
    }
}

/// A path comes before everything below it.
pub proof fn lemma_below_is_later(p: Seq<Seq<char>>, base: Seq<Seq<char>>)
    requires
        below(p, base),
    ensures
        path_lt(base, p),
    decreases base.len(),
{
    if base.len() > 0 {
        assert(p.take(base.len() as int)[0] == p[0]);
        assert(p.skip(1).take(base.len() - 1) =~= p.take(base.len() as int).skip(1));
        lemma_below_is_later(p.skip(1), base.skip(1));
    }
}

/// Whatever lies in the order between a path and something below it is itself below it.
pub proof fn lemma_subtree_is_contiguous(
    base: Seq<Seq<char>>,
    mid: Seq<Seq<char>>,
    p: Seq<Seq<char>>,
)
    requires
        under(p, base),
        path_lt(base, mid),
        path_lt(mid, p),
    ensures
        below(mid, base),
    decreases base.len(),
{
    if base.len() > 0 {
        assert(p.take(base.len() as int)[0] == p[0]);
        if base[0] != mid[0] {
            lemma_path_lt_transitive(seq![base[0]], seq![mid[0]], seq![p[0]]);
            assert(comp_lt(base[0], mid[0]) && comp_lt(mid[0], p[0]));
            lemma_comp_lt_transitive(base[0], mid[0], p[0]);
            lemma_chars_lt_irreflexive(base[0]);
        } else {
            assert(p.skip(1).take(base.len() - 1) =~= p.take(base.len() as int).skip(1));
            lemma_subtree_is_contiguous(base.skip(1), mid.skip(1), p.skip(1));
            assert(mid.take(base.len() as int) =~= seq![mid[0]] + mid.skip(1).take(base.len() - 1));
            assert(base =~= seq![base[0]] + base.skip(1));
        }
    } else {
        assert(mid.take(0) =~= base);
    }
}

/// Being under something is transitive.
pub proof fn lemma_under_transitive(a: Seq<Seq<char>>, b: Seq<Seq<char>>, c: Seq<Seq<char>>)
    requires
        under(a, b),
        under(b, c),
    ensures
        under(a, c),
{
    assert(a.take(c.len() as int) =~= b.take(c.len() as int)) by {
        assert(a.take(b.len() as int) == b);
        assert forall|i: int| 0 <= i < c.len() implies a[i] == b[i] by {
            assert(a.take(b.len() as int)[i] == a[i]);
        }
    }
}

/// Of two paths that `p` is under, the longer is under the shorter.
pub proof fn lemma_under_chain(p: Seq<Seq<char>>, a: Seq<Seq<char>>, b: Seq<Seq<char>>)
    requires
        under(p, a),
        under(p, b),
        a.len() <= b.len(),
    ensures
        under(b, a),
{
    assert(b.take(a.len() as int) =~= a) by {
        assert forall|i: int| 0 <= i < a.len() implies b[i] == a[i] by {
            assert(p.take(a.len() as int)[i] == p[i]);
            assert(p.take(b.len() as int)[i] == p[i]);
        }
    }
}

/// The components that name something: neither empty nor `.`.
pub open spec fn counted() -> spec_fn(Seq<char>) -> bool {
    |c: Seq<char>| c.len() > 0 && c != dot()
}

/// The path that `s` spells.
pub open spec fn path_of(s: Seq<char>) -> Seq<Seq<char>> {
    let pieces = split(s, '/');
    if s.len() > 0 && s[0] == '/' {
        seq![root()] + pieces.filter(counted())
    } else if pieces[0] == dot() {
        seq![dot()] + pieces.filter(counted())
    } else {
        pieces.filter(counted())
    }
}

/// Components with slashes between them.
pub open spec fn slashed(c: Seq<Seq<char>>) -> Seq<char>
    decreases c.len(),
{
    if c.len() == 0 {
        seq![]
    } else if c.len() == 1 {
        c[0]
    } else {
        slashed(c.drop_last()) + seq!['/'] + c.last()
    }
}

/// How a path is spelled.
pub open spec fn path_text(p: Seq<Seq<char>>) -> Seq<char> {
    if p.len() > 0 && p[0] == root() {
        root() + slashed(p.skip(1))
    } else {
        slashed(p)
    }
}

/// Whether a path starts at the root.
pub open spec fn is_absolute(p: Seq<Seq<char>>) -> bool {
    p.len() > 0 && p[0] == root()
}

/// `rel` seen from `base`; an absolute path stays what it is.
pub open spec fn joined(base: Seq<Seq<char>>, rel: Seq<Seq<char>>) -> Seq<Seq<char>> {
    if is_absolute(rel) {
        rel
    } else if base.len() > 0 && rel.len() > 0 && rel[0] == dot() {
        base + rel.skip(1)
    } else {
        base + rel
    }
}

/// The name at the end of a path.
pub open spec fn file_name(p: Seq<Seq<char>>) -> Option<Seq<char>> {
    if p.len() > 0 && is_name(p.last()) {
        Some(p.last())
    } else {
        None
    }
}

/// What a path lies in.
pub open spec fn parent(p: Seq<Seq<char>>) -> Option<Seq<Seq<char>>> {
    if p.len() > 0 && p.last() != root() {
        Some(p.drop_last())
    } else {
        None
    }
}

/// A file name without its extension: what stands before the last dot, unless that is all.
pub open spec fn stem_of(name: Seq<char>) -> Seq<char> {
    if after_last(name, '.') > 1 {
        name.take(after_last(name, '.') - 1)
    } else {
        name
    }
}

/// A file name's extension: what stands behind the last dot, unless the name begins with it.
pub open spec fn extension_of(name: Seq<char>) -> Option<Seq<char>> {
    if after_last(name, '.') > 1 {
        Some(name.skip(after_last(name, '.') as int))
    } else {
        None
    }
}

/// The path of `name` in the directory `base`.
pub open spec fn child(base: Seq<Seq<char>>, name: Seq<char>) -> Seq<Seq<char>> {
    joined(base, path_of(name))
}

fn is_text(s: &String, c: char) -> (r: bool)
    ensures
        r == (s@ == seq![c]),
{
    let v = chars_of(s.as_str());
    let r = v.len() == 1 && v[0] == c;
    proof {
        if r {
            assert(s@ =~= seq![c]);
        }
    }
    r
}

fn is_dots(s: &String) -> (r: bool)
    ensures
        r == (s@ == dot_dot()),
{
    let v = chars_of(s.as_str());
    let r = v.len() == 2 && v[0] == '.' && v[1] == '.';
    proof {
        if r {
            assert(s@ =~= dot_dot());
        }
    }
    r
}

fn comp_rank(s: &String) -> (r: u8)
    ensures
        r == rank(s@),
{
    proof {
        assert(root()[0] == '/' && dot()[0] == '.' && dot_dot().len() == 2);
    }
    if is_text(s, '/') {
        0
    } else if is_text(s, '.') {
        1
    } else if is_dots(s) {
        2
    } else {
        3
    }
}

fn comp_before(a: &String, b: &String) -> (r: bool)
    ensures
        r == comp_lt(a@, b@),
{
    let ra = comp_rank(a);
    let rb = comp_rank(b);
    if ra != rb {
        ra < rb
    } else {
        let x = chars_of(a.as_str());
        let y = chars_of(b.as_str());
        chars_before(x.as_slice(), y.as_slice())
    }
}

impl FilePath {
    /// The path that `s` spells.
    pub fn from_text(s: &str) -> (r: FilePath)
        ensures
            r@ == path_of(s@),
    {
        let chars = chars_of(s);
        let pieces = split_at_char(chars.as_slice(), '/');
        let mut comps: Vec<String> = Vec::new();
        assert(pieces.len() > 0) by {
            assert(split(s@, '/').len() > 0);
            assert(pieces.deep_view().len() == pieces.len());
        }
        if chars.len() > 0 && chars[0] == '/' {
            let mut t = String::new();
            t.push('/');
            comps.push(t);
            assert(comps.deep_view() =~= seq![root()]) by {
                assert(t@ =~= root());
            }
        } else if is_text(&pieces[0], '.') {
            let mut t = String::new();
            t.push('.');
            comps.push(t);
            assert(pieces.deep_view()[0] == dot());
            assert(comps.deep_view() =~= seq![dot()]) by {
                assert(t@ =~= dot());
            }
        } else {
            assert(pieces.deep_view()[0] == pieces[0]@);
            assert(comps.deep_view() =~= Seq::<Seq<char>>::empty());
        }
        let ghost front = comps.deep_view();
        let ghost all = pieces.deep_view();
        let mut i: usize = 0;
        assert(all.take(0).filter(counted()) =~= Seq::<Seq<char>>::empty()) by {
            reveal(Seq::filter);
        }
        assert(front + all.take(0).filter(counted()) =~= front);
        while i < pieces.len()
            invariant
                i <= pieces.len(),
                all == pieces.deep_view(),
                comps.deep_view() == front + all.take(i as int).filter(counted()),
            decreases pieces.len() - i,
        {
            let ghost was = comps.deep_view();
            assert(all[i as int] == pieces[i as int]@);
            assert(all.take(i + 1).drop_last() =~= all.take(i as int));
            assert(all.take(i + 1).last() == all[i as int]);
            proof {
                reveal(Seq::filter);
            }
            if !pieces[i].as_str().is_empty() && !is_text(&pieces[i], '.') {
                let piece = pieces[i].clone();
                comps.push(piece);
                assert(comps.deep_view() =~= was.push(all[i as int]));
                assert(comps.deep_view() =~= front + all.take(i + 1).filter(counted()));
            } else {
                assert(all.take(i + 1).filter(counted()) =~= all.take(i as int).filter(counted()));
            }
            i = i + 1;
        }
        assert(all.take(i as int) =~= all);
        assert(front + all.filter(counted()) =~= path_of(s@)) by {
            if front.len() == 0 {
                assert(front + all.filter(counted()) =~= all.filter(counted()));
            }
        }
        FilePath { comps }
    }

    /// How the path is spelled.
    pub fn text(&self) -> (r: String)
        ensures
            r@ == path_text(self@),
    {
        let mut out = String::new();
        let mut i: usize = 0;
        if self.comps.len() > 0 && is_text(&self.comps[0], '/') {
            out.push('/');
            i = 1;
            assert(self@[0] == root());
        } else if self.comps.len() > 0 {
            assert(self@[0] == self.comps[0]@);
        }
        let ghost front = out@;
        let start: usize = i;
        let ghost rest = if start == 1 {
            self@.skip(1)
        } else {
            self@
        };
        assert(front =~= (if start == 1 {
            root()
        } else {
            seq![]
        }));
        assert(front + slashed(rest.take(0)) =~= front);
        while i < self.comps.len()
            invariant
                start <= i <= self.comps.len(),
                start <= 1,
                rest == (if start == 1 {
                    self@.skip(1)
                } else {
                    self@
                }),
                out@ == front + slashed(rest.take(i - start)),
            decreases self.comps.len() - i,
        {
            let ghost n = i - start;
            assert(rest[n] == self.comps[i as int]@);
            assert(rest.take(n + 1).drop_last() =~= rest.take(n));
            if i > start {
                out.push('/');
            }
            let ghost mid = out@;
            out.append(self.comps[i].as_str());
            proof {
                if n == 0 {
                    assert(slashed(rest.take(1)) == rest[0]);
                    assert(mid =~= front + slashed(rest.take(0)));
                    assert(out@ =~= front + rest[0]);
                } else {
                    assert(slashed(rest.take(n + 1)) == slashed(rest.take(n)) + seq!['/']
                        + rest[n]);
                    assert(mid =~= front + slashed(rest.take(n)) + seq!['/']);
                    assert(out@ =~= front + slashed(rest.take(n + 1)));
                }
            }
            i = i + 1;
        }
        assert(rest.take(i - start) =~= rest);
        assert(out@ =~= path_text(self@)) by {
            if start == 0 {
                assert(front + slashed(rest) =~= slashed(rest));
            }
        }
        out
    }

    /// The same path once more.
    pub fn copy(&self) -> (r: FilePath)
        ensures
            r@ == self@,
    {
        let comps = copy_strings(&self.comps);
        FilePath { comps }
    }

    /// Whether two paths are the same.
    pub fn same(&self, other: &FilePath) -> (r: bool)
        ensures
            r == (self@ == other@),
    {
        if self.comps.len() != other.comps.len() {
            assert(self@.len() != other@.len());
            return false;
        }
        self.under(other)
    }

    /// Whether the path is `base` or lies below it.
    pub fn under(&self, base: &FilePath) -> (r: bool)
        ensures
            r == under(self@, base@),
            self@.len() == base@.len() ==> r == (self@ == base@),
    {
        if base.comps.len() > self.comps.len() {
            return false;
        }
        let mut i: usize = 0;
        while i < base.comps.len()
            invariant
                i <= base.comps.len() <= self.comps.len(),
                forall|j: int| 0 <= j < i ==> #[trigger] self@[j] == base@[j],
            decreases base.comps.len() - i,
        {
            if !same(self.comps[i].as_str(), base.comps[i].as_str()) {
                assert(self@[i as int] != base@[i as int]);
                assert(self@.take(base@.len() as int)[i as int] != base@[i as int]);
                return false;
            }
            assert(self@[i as int] == base@[i as int]);
            i = i + 1;
        }
        assert(self@.take(base@.len() as int) =~= base@);
        assert(self@.len() == base@.len() ==> self@.take(base@.len() as int) =~= self@);
        true
    }

    /// Whether the path comes before `other`.
    pub fn before(&self, other: &FilePath) -> (r: bool)
        ensures
            r == path_lt(self@, other@),
    {
        let mut i: usize = 0;
        assert(self@.skip(0) =~= self@);
        assert(other@.skip(0) =~= other@);
        while i < self.comps.len() && i < other.comps.len()
            invariant
                i <= self.comps.len(),
                i <= other.comps.len(),
                path_lt(self@, other@) == path_lt(self@.skip(i as int), other@.skip(i as int)),
            decreases self.comps.len() - i,
        {
            let ghost a = self@.skip(i as int);
            let ghost b = other@.skip(i as int);
            assert(a[0] == self.comps[i as int]@);
            assert(b[0] == other.comps[i as int]@);
            if !same(self.comps[i].as_str(), other.comps[i].as_str()) {
                return comp_before(&self.comps[i], &other.comps[i]);
            }
            assert(a.skip(1) =~= self@.skip(i + 1));
            assert(b.skip(1) =~= other@.skip(i + 1));
            i = i + 1;
        }
        i < other.comps.len()
    }

    /// Whether the path starts at the root.
    pub fn is_absolute(&self) -> (r: bool)
        ensures
            r == is_absolute(self@),
    {
        if self.comps.len() == 0 {
            return false;
        }
        assert(self@[0] == self.comps[0]@);
        is_text(&self.comps[0], '/')
    }

    /// `rel` seen from this path; an absolute path stays what it is.
    pub fn join(&self, rel: &FilePath) -> (r: FilePath)
        ensures
            r@ == joined(self@, rel@),
    {
        if rel.is_absolute() {
            return rel.copy();
        }
        let mut comps = copy_strings(&self.comps);
        let mut i: usize = 0;
        if rel.comps.len() > 0 {
            assert(rel@[0] == rel.comps[0]@);
        }
        if self.comps.len() > 0 && rel.comps.len() > 0 && is_text(&rel.comps[0], '.') {
            i = 1;
        }
        let start: usize = i;
        assert(comps.deep_view() =~= self@ + rel@.subrange(start as int, start as int));
        while i < rel.comps.len()
            invariant
                start <= i <= rel.comps.len(),
                comps.deep_view() == self@ + rel@.subrange(start as int, i as int),
            decreases rel.comps.len() - i,
        {
            let ghost was = comps.deep_view();
            let c = rel.comps[i].clone();
            comps.push(c);
            assert(comps.deep_view() =~= was.push(rel@[i as int]));
            assert(comps.deep_view() =~= self@ + rel@.subrange(start as int, i + 1));
            i = i + 1;
        }
        assert(comps.deep_view() =~= joined(self@, rel@));
        FilePath { comps }
    }

    /// The path that `rel` spells, seen from this path.
    pub fn child(&self, rel: &str) -> (r: FilePath)
        ensures
            r@ == child(self@, rel@),
    {
        let p = FilePath::from_text(rel);
        self.join(&p)
    }

    /// The name at the end of the path.
    pub fn file_name(&self) -> (r: Option<&str>)
        ensures
            r is Some <==> file_name(self@) is Some,
            r is Some ==> r->0@ == file_name(self@)->0,
    {
        let n = self.comps.len();
        if n == 0 {
            return None;
        }
        assert(self@.last() == self.comps[n - 1]@);
        if comp_rank(&self.comps[n - 1]) == 3 {
            Some(self.comps[n - 1].as_str())
        } else {
            None
        }
    }

    /// What the path lies in.
    pub fn parent(&self) -> (r: Option<FilePath>)
        ensures
            r is Some <==> parent(self@) is Some,
            r is Some ==> r->0@ == parent(self@)->0,
    {
        let n = self.comps.len();
        if n == 0 {
            return None;
        }
        assert(self@.last() == self.comps[n - 1]@);
        if is_text(&self.comps[n - 1], '/') {
            return None;
        }
        let mut comps = copy_strings(&self.comps);
        comps.pop();
        assert(comps.deep_view() =~= self@.drop_last());
        Some(FilePath { comps })
    }

    /// The part of the path behind `base`.
    pub fn strip_prefix(&self, base: &FilePath) -> (r: Option<FilePath>)
        ensures
            r is Some <==> under(self@, base@),
            r is Some ==> r->0@ == self@.skip(base@.len() as int),
    {
        if !self.under(base) {
            return None;
        }
        Some(self.behind(base.comps.len()))
    }

    /// The path without its first `n` components.
    pub fn behind(&self, n: usize) -> (r: FilePath)
        requires
            n <= self@.len(),
        ensures
            r@ == self@.skip(n as int),
    {
        let mut comps: Vec<String> = Vec::new();
        let mut i: usize = n;
        assert(comps.deep_view() =~= self@.subrange(n as int, n as int));
        while i < self.comps.len()
            invariant
                n <= i <= self.comps.len(),
                comps.deep_view() == self@.subrange(n as int, i as int),
            decreases self.comps.len() - i,
        {
            let ghost was = comps.deep_view();
            let c = self.comps[i].clone();
            comps.push(c);
            assert(comps.deep_view() =~= was.push(self@[i as int]));
            assert(comps.deep_view() =~= self@.subrange(n as int, i + 1));
            i = i + 1;
        }
        assert(comps.deep_view() =~= self@.skip(n as int));
        FilePath { comps }
    }
}

/// The same list of texts once more.
pub fn copy_strings(v: &Vec<String>) -> (r: Vec<String>)
    ensures
        r.deep_view() == v.deep_view(),
{
    let mut out: Vec<String> = Vec::new();
    let mut i: usize = 0;
    while i < v.len()
        invariant
            i <= v.len(),
            out.len() == i,
            forall|j: int| 0 <= j < i ==> (#[trigger] out@[j])@ == v@[j]@,
        decreases v.len() - i,
    {
        let s = v[i].clone();
        out.push(s);
        i = i + 1;
    }
    assert(out.deep_view() =~= v.deep_view());
    out
}

/// A file name's extension.
pub fn extension(name: &str) -> (r: Option<String>)
    ensures
        r is Some <==> extension_of(name@) is Some,
        r is Some ==> r->0@ == extension_of(name@)->0,
{
    let c = chars_of(name);
    let k = find_last(c.as_slice(), '.');
    if k > 1 {
        let s = slice_subrange(c.as_slice(), k, c.len());
        assert(s@ =~= name@.skip(k as int));
        Some(string_of(s))
    } else {
        None
    }
}

/// A file name without its extension.
pub fn stem(name: &str) -> (r: String)
    ensures
        r@ == stem_of(name@),
{
    let c = chars_of(name);
    let k = find_last(c.as_slice(), '.');
    if k > 1 {
        let s = slice_subrange(c.as_slice(), 0, k - 1);
        assert(s@ =~= name@.take(k - 1));
        string_of(s)
    } else {
        name.to_owned()
    }
}

} // verus!
