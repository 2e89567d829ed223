//! What is known of the file system.
//!
//! The library reads no disk. It asks a `Disk`, a table of facts that its user has looked up;
//! what is not in the table reads as absent and is noted as wanted. The user looks the wanted
//! facts up and asks again, until nothing more is wanted.
//!
//! What the file system really holds is the table's view. Every answer is stated over it: an answer
//! is right wherever what the table says is true and what it has been asked for in vain is not
//! there. So an answer after which nothing is wanted is the whole answer. Nothing is wanted that the
//! table knows already, so over a table that lacks no fact every answer is the whole answer.
//!
//! Of a file's head one reading is kept, whatever length it is asked for later, and whatever becomes
//! of the file: it is a part of the view, beside what a first reading of each length would give.

use vstd::prelude::*;

use crate::fspath::FilePath;
use crate::pathmap::PathMap;

verus! {

/// What sort of thing a directory entry is; a symbolic link is not followed.
#[derive(Clone, Copy, Debug, PartialEq, Eq, Structural)]
pub enum NodeKind {
    File,
    Dir,
    Link,
    Other,
}

/// One entry of a directory.
#[derive(Debug)]
pub struct Listed {
    pub name: String,
    pub kind: NodeKind,
}

impl DeepView for Listed {
    type V = (Seq<char>, NodeKind);

    open spec fn deep_view(&self) -> (Seq<char>, NodeKind) {
        (self.name@, self.kind)
    }
}

/// A question that the table does not answer yet.
#[derive(Debug)]
pub enum Want {
    /// Whether something is there, and whether it is a directory; links are followed.
    Stat(FilePath),
    /// What a directory holds, in the order in which the system lists it.
    List(FilePath),
    /// The first bytes of a file, at most so many, as text.
    Head(FilePath, usize),
    /// A whole file, where it is text.
    Text(FilePath),
    /// All bytes of a file.
    Bytes(FilePath),
    /// What a symbolic link points to.
    Link(FilePath),
    /// The bytes that a regular file takes on disk; a link is not followed.
    Size(FilePath),
}

/// A question, as a value.
#[verifier::ext_equal]
pub enum WantView {
    Stat(Seq<Seq<char>>),
    List(Seq<Seq<char>>),
    Head(Seq<Seq<char>>, usize),
    Text(Seq<Seq<char>>),
    Bytes(Seq<Seq<char>>),
    Link(Seq<Seq<char>>),
    Size(Seq<Seq<char>>),
}

impl DeepView for Want {
    type V = WantView;

    open spec fn deep_view(&self) -> WantView {
        match self {
            Want::Stat(p) => WantView::Stat(p@),
            Want::List(p) => WantView::List(p@),
            Want::Head(p, n) => WantView::Head(p@, *n),
            Want::Text(p) => WantView::Text(p@),
            Want::Bytes(p) => WantView::Bytes(p@),
            Want::Link(p) => WantView::Link(p@),
            Want::Size(p) => WantView::Size(p@),
        }
    }
}

/// Whether something is there, and whether it is a directory.
#[derive(Clone, Copy, Debug, PartialEq, Eq, Structural)]
pub enum Stat {
    Absent,
    Dir,
    File,
    Other,
}

impl DeepView for Stat {
    type V = Stat;

    open spec fn deep_view(&self) -> Stat {
        *self
    }
}

/// The facts that are known.
pub struct Disk {
    pub stats: PathMap<Stat>,
    pub listings: PathMap<Option<Vec<Listed>>>,
    /// What the first bytes of each file spelt when they were read.
    pub heads: PathMap<Option<String>>,
    pub texts: PathMap<Option<String>>,
    pub blobs: PathMap<Option<Vec<u8>>>,
    pub links: PathMap<Option<FilePath>>,
    pub sizes: PathMap<Option<u64>>,
    /// The questions that had no answer, in the order in which they were asked.
    pub wanted: Vec<Want>,
    /// What the file system really holds.
    pub world: Ghost<DiskView>,
}

/// What a file system holds, as maps from paths.
#[verifier::ext_equal]
pub struct DiskView {
    pub stats: Map<Seq<Seq<char>>, Stat>,
    pub listings: Map<Seq<Seq<char>>, Option<Seq<(Seq<char>, NodeKind)>>>,
    /// The heads that are kept.
    pub heads: Map<Seq<Seq<char>>, Option<Seq<char>>>,
    /// What a first reading of at most so many bytes gives.
    pub readings: Map<(Seq<Seq<char>>, usize), Option<Seq<char>>>,
    pub texts: Map<Seq<Seq<char>>, Option<Seq<char>>>,
    pub blobs: Map<Seq<Seq<char>>, Option<Seq<u8>>>,
    pub links: Map<Seq<Seq<char>>, Option<Seq<Seq<char>>>>,
    pub sizes: Map<Seq<Seq<char>>, Option<u64>>,
}

impl View for Disk {
    type V = DiskView;

    open spec fn view(&self) -> DiskView {
        DiskView { heads: self.heads@, ..self.world@ }
    }
}

impl DiskView {
    /// What is at `p`.
    pub open spec fn stat(self, p: Seq<Seq<char>>) -> Stat {
        if self.stats.contains_key(p) {
            self.stats[p]
        } else {
            Stat::Absent
        }
    }

    /// Whether something is at `p`.
    pub open spec fn present(self, p: Seq<Seq<char>>) -> bool {
        self.stat(p) != Stat::Absent
    }

    /// Whether a directory is at `p`.
    pub open spec fn is_dir(self, p: Seq<Seq<char>>) -> bool {
        self.stat(p) == Stat::Dir
    }

    /// Whether a regular file is at `p`.
    pub open spec fn is_file(self, p: Seq<Seq<char>>) -> bool {
        self.stat(p) == Stat::File
    }

    /// What the directory `p` holds; nothing where it cannot be read.
    pub open spec fn list(self, p: Seq<Seq<char>>) -> Option<Seq<(Seq<char>, NodeKind)>> {
        if self.listings.contains_key(p) {
            self.listings[p]
        } else {
            None
        }
    }

    /// The head of the file `p`: the one that is kept, whatever `cap` is; where none is kept, the
    /// text that at most the first `cap` bytes spell, and nothing where they cannot be read.
    pub open spec fn head(self, p: Seq<Seq<char>>, cap: usize) -> Option<Seq<char>> {
        if self.heads.contains_key(p) {
            self.heads[p]
        } else if self.readings.contains_key((p, cap)) {
            self.readings[(p, cap)]
        } else {
            None
        }
    }

    /// The text of the file `p`; nothing where it cannot be read or is no text.
    pub open spec fn text(self, p: Seq<Seq<char>>) -> Option<Seq<char>> {
        if self.texts.contains_key(p) {
            self.texts[p]
        } else {
            None
        }
    }

    /// The bytes of the file `p`; nothing where it cannot be read.
    pub open spec fn bytes(self, p: Seq<Seq<char>>) -> Option<Seq<u8>> {
        if self.blobs.contains_key(p) {
            self.blobs[p]
        } else {
            None
        }
    }

    /// What the link `p` points to; nothing where `p` is no link.
    pub open spec fn link(self, p: Seq<Seq<char>>) -> Option<Seq<Seq<char>>> {
        if self.links.contains_key(p) {
            self.links[p]
        } else {
            None
        }
    }

    /// The bytes that the regular file `p` takes on disk; nothing where `p` is none.
    pub open spec fn size(self, p: Seq<Seq<char>>) -> Option<u64> {
        if self.sizes.contains_key(p) {
            self.sizes[p]
        } else {
            None
        }
    }

    /// Whether what a question asks for is not there.
    pub open spec fn lacks(self, w: WantView) -> bool {
        match w {
            WantView::Stat(p) => self.stat(p) == Stat::Absent,
            WantView::List(p) => self.list(p) is None,
            WantView::Head(p, cap) => self.head(p, cap) is None,
            WantView::Text(p) => self.text(p) is None,
            WantView::Bytes(p) => self.bytes(p) is None,
            WantView::Link(p) => self.link(p) is None,
            WantView::Size(p) => self.size(p) is None,
        }
    }

    /// Whether a table with these facts has an answer for a question, be it that the thing is not
    /// there.
    pub open spec fn answers(self, w: WantView) -> bool {
        match w {
            WantView::Stat(p) => self.stats.contains_key(p),
            WantView::List(p) => self.listings.contains_key(p),
            WantView::Head(p, _) => self.heads.contains_key(p),
            WantView::Text(p) => self.texts.contains_key(p),
            WantView::Bytes(p) => self.blobs.contains_key(p),
            WantView::Link(p) => self.links.contains_key(p),
            WantView::Size(p) => self.sizes.contains_key(p),
        }
    }
}

/// Whether `after` is `before` with further questions behind it, none of which `known` answers.
#[verifier::opaque]
pub open spec fn asks_anew(known: DiskView, before: Seq<WantView>, after: Seq<WantView>) -> bool {
    &&& before.is_prefix_of(after)
    &&& forall|i: int| before.len() <= i < after.len() ==> !known.answers(#[trigger] after[i])
}

/// Asking nothing asks nothing that is known.
pub broadcast proof fn lemma_asks_nothing(known: DiskView, asked: Seq<WantView>)
    ensures
        #[trigger] asks_anew(known, asked, asked),
{
    reveal(asks_anew);
}

/// Questions that are asked one after the other.
pub broadcast proof fn lemma_asks_more(
    known: DiskView,
    a: Seq<WantView>,
    b: Seq<WantView>,
    c: Seq<WantView>,
)
    requires
        #[trigger] asks_anew(known, a, b),
        #[trigger] asks_anew(known, b, c),
    ensures
        asks_anew(known, a, c),
{
    reveal(asks_anew);
    assert forall|i: int| a.len() <= i < c.len() implies !known.answers(#[trigger] c[i]) by {
        if i < b.len() {
            assert(c[i] == b[i]);
        }
    }
}

/// What follows of questions that are asked one after the other.
pub broadcast group group_asks {
    lemma_asks_nothing,
    lemma_asks_more,
}

impl Disk {
    /// Every table is in order.
    pub open spec fn wf(self) -> bool {
        &&& self.stats.wf()
        &&& self.listings.wf()
        &&& self.heads.wf()
        &&& self.texts.wf()
        &&& self.blobs.wf()
        &&& self.links.wf()
        &&& self.sizes.wf()
    }

    /// Whether the table has an answer for a question.
    pub open spec fn knows(self, w: WantView) -> bool {
        self.facts().answers(w)
    }

    /// Whether the table lacks no fact: what it does not know is not there.
    pub open spec fn is_complete(self) -> bool {
        forall|w: WantView| !self.knows(w) ==> #[trigger] self@.lacks(w)
    }

    /// Whether all that the table says is true of the disk. A head that is kept is the file's head.
    pub open spec fn is_true(self) -> bool {
        &&& forall|p: Seq<Seq<char>>| #[trigger]
            self.stats@.contains_key(p) ==> self.stats@[p] == self@.stat(p)
        &&& forall|p: Seq<Seq<char>>| #[trigger]
            self.listings@.contains_key(p) ==> self.listings@[p] == self@.list(p)
        &&& forall|p: Seq<Seq<char>>| #[trigger]
            self.texts@.contains_key(p) ==> self.texts@[p] == self@.text(p)
        &&& forall|p: Seq<Seq<char>>| #[trigger]
            self.blobs@.contains_key(p) ==> self.blobs@[p] == self@.bytes(p)
        &&& forall|p: Seq<Seq<char>>| #[trigger]
            self.links@.contains_key(p) ==> self.links@[p] == self@.link(p)
        &&& forall|p: Seq<Seq<char>>| #[trigger]
            self.sizes@.contains_key(p) ==> self.sizes@[p] == self@.size(p)
    }

    /// Whether all that the table says is true of the disk, and what it has been asked for in vain
    /// is not there.
    #[verifier::opaque]
    pub open spec fn holds(self) -> bool {
        &&& self.is_true()
        &&& forall|i: int|
            0 <= i < self.wanted.deep_view().len() ==> self@.lacks(
                #[trigger] self.wanted.deep_view()[i],
            )
    }

    /// The facts themselves, as if nothing else were there.
    pub open spec fn facts(self) -> DiskView {
        DiskView {
            stats: self.stats@,
            listings: self.listings@,
            heads: self.heads@,
            readings: Map::empty(),
            texts: self.texts@,
            blobs: self.blobs@,
            links: self.links@,
            sizes: self.sizes@,
        }
    }

    /// The same facts about the same disk as before, the same questions, and behind them only
    /// questions that the table does not know the answer of.
    pub open spec fn asked(self, before: Disk) -> bool {
        &&& self.wf()
        &&& self@ == before@
        &&& self.facts() == before.facts()
        &&& asks_anew(
            before.facts(),
            before.wanted.deep_view(),
            self.wanted.deep_view(),
        )
        &&& self.holds() ==> before.holds()
    }

    /// A table without facts.
    pub fn new() -> (r: Disk)
        ensures
            r.wf(),
            r.is_true(),
            r.wanted@.len() == 0,
    {
        Disk::of(Ghost(arbitrary()))
    }

    /// A table without facts about a disk.
    pub fn of(world: Ghost<DiskView>) -> (r: Disk)
        ensures
            r.wf(),
            r@ == (DiskView { heads: Map::empty(), ..world@ }),
            r.is_true(),
            r.wanted@.len() == 0,
    {
        let r = Disk {
            stats: PathMap::new(),
            listings: PathMap::new(),
            heads: PathMap::new(),
            texts: PathMap::new(),
            blobs: PathMap::new(),
            links: PathMap::new(),
            sizes: PathMap::new(),
            wanted: Vec::new(),
            world,
        };
        assert(r@.heads =~= Map::empty());
        r
    }

    /// Keep what the first bytes of a file spell; where a head of the file is kept already, that one
    /// stays.
    pub fn set_head(&mut self, p: FilePath, text: Option<String>)
        requires
            old(self).wf(),
        ensures
            final(self).wf(),
            final(self).heads@ == (if old(self).heads@.contains_key(p@) {
                old(self).heads@
            } else {
                old(self).heads@.insert(p@, text.deep_view())
            }),
            final(self)@ == (DiskView { heads: final(self).heads@, ..old(self)@ }),
            final(self).facts() == (DiskView { heads: final(self).heads@, ..old(self).facts() }),
            old(self).is_true() ==> final(self).is_true(),
            final(self).wanted == old(self).wanted,
    {
        if self.heads.get(&p).is_none() {
            self.heads.insert_new(p, text);
        }
    }

    fn want(&mut self, w: Want)
        requires
            old(self).wf(),
            !old(self).knows(w.deep_view()),
        ensures
            final(self).asked(*old(self)),
            final(self).wanted.deep_view() == old(self).wanted.deep_view().push(w.deep_view()),
            final(self).holds() ==> old(self)@.lacks(w.deep_view()),
    {
        let ghost was = self.wanted.deep_view();
        self.wanted.push(w);
        proof {
            let now = self.wanted.deep_view();
            assert(now =~= was.push(w.deep_view()));
            assert(asks_anew(self.facts(), was, now)) by {
                reveal(asks_anew);
            }
            reveal(Disk::holds);
            if self.holds() {
                assert(self@.lacks(now[now.len() - 1]));
                assert forall|i: int| 0 <= i < was.len() implies old(self)@.lacks(
                    #[trigger] was[i],
                ) by {
                    assert(now[i] == was[i]);
                }
            }
        }
    }

    /// Whether something is at `p`.
    pub fn present(&mut self, p: &FilePath) -> (r: bool)
        requires
            old(self).wf(),
        ensures
            final(self).asked(*old(self)),
            final(self).holds() ==> r == old(self)@.present(p@),
            final(self).wanted.deep_view() == (if old(self).stats@.contains_key(p@) {
                old(self).wanted.deep_view()
            } else {
                old(self).wanted.deep_view().push(WantView::Stat(p@))
            }),
    {
        broadcast use group_asks;

        proof {
            reveal(Disk::holds);
        }
        match self.stats.get(p) {
            Some(s) => match *s {
                Stat::Absent => false,
                _ => true,
            },
            None => {
                self.want(Want::Stat(p.copy()));
                false
            },
        }
    }

    /// Whether a directory is at `p`.
    pub fn is_dir(&mut self, p: &FilePath) -> (r: bool)
        requires
            old(self).wf(),
        ensures
            final(self).asked(*old(self)),
            final(self).holds() ==> r == old(self)@.is_dir(p@),
            final(self).wanted.deep_view() == (if old(self).stats@.contains_key(p@) {
                old(self).wanted.deep_view()
            } else {
                old(self).wanted.deep_view().push(WantView::Stat(p@))
            }),
    {
        broadcast use group_asks;

        proof {
            reveal(Disk::holds);
        }
        match self.stats.get(p) {
            Some(s) => match *s {
                Stat::Dir => true,
                _ => false,
            },
            None => {
                self.want(Want::Stat(p.copy()));
                false
            },
        }
    }

    /// Whether a regular file is at `p`.
    pub fn is_file(&mut self, p: &FilePath) -> (r: bool)
        requires
            old(self).wf(),
        ensures
            final(self).asked(*old(self)),
            final(self).holds() ==> r == old(self)@.is_file(p@),
            final(self).wanted.deep_view() == (if old(self).stats@.contains_key(p@) {
                old(self).wanted.deep_view()
            } else {
                old(self).wanted.deep_view().push(WantView::Stat(p@))
            }),
    {
        broadcast use group_asks;

        proof {
            reveal(Disk::holds);
        }
        match self.stats.get(p) {
            Some(s) => match *s {
                Stat::File => true,
                _ => false,
            },
            None => {
                self.want(Want::Stat(p.copy()));
                false
            },
        }
    }

    /// What the directory `p` holds; nothing where it cannot be read.
    pub fn list(&mut self, p: &FilePath) -> (r: Option<Vec<Listed>>)
        requires
            old(self).wf(),
        ensures
            final(self).asked(*old(self)),
            final(self).holds() ==> r.deep_view() == old(self)@.list(p@),
            final(self).wanted.deep_view() == (if old(self).listings@.contains_key(p@) {
                old(self).wanted.deep_view()
            } else {
                old(self).wanted.deep_view().push(WantView::List(p@))
            }),
    {
        broadcast use group_asks;

        proof {
            reveal(Disk::holds);
        }
        match self.listings.get(p) {
            Some(known) => match known {
                Some(v) => {
                    let mut out: Vec<Listed> = Vec::new();
                    let mut i: usize = 0;
                    while i < v.len()
                        invariant
                            i <= v.len(),
                            out.len() == i,
                            forall|j: int|
                                0 <= j < i ==> (#[trigger] out@[j]).deep_view()
                                    == v@[j].deep_view(),
                        decreases v.len() - i,
                    {
                        out.push(Listed { name: v[i].name.clone(), kind: v[i].kind });
                        i = i + 1;
                    }
                    assert(out.deep_view() =~= v.deep_view());
                    Some(out)
                },
                None => None,
            },
            None => {
                self.want(Want::List(p.copy()));
                None
            },
        }
    }

    /// The head of the file `p`: the one that is kept, whatever `cap` is; else the text that at most
    /// its first `cap` bytes spell, and nothing where it cannot be read.
    pub fn head(&mut self, p: &FilePath, cap: usize) -> (r: Option<String>)
        requires
            old(self).wf(),
        ensures
            final(self).asked(*old(self)),
            final(self).holds() ==> r.deep_view() == old(self)@.head(p@, cap),
            r.deep_view() == (if old(self).heads@.contains_key(p@) {
                old(self).heads@[p@]
            } else {
                None
            }),
            final(self).wanted.deep_view() == (if old(self).heads@.contains_key(p@) {
                old(self).wanted.deep_view()
            } else {
                old(self).wanted.deep_view().push(WantView::Head(p@, cap))
            }),
    {
        broadcast use group_asks;

        proof {
            reveal(Disk::holds);
        }
        match self.heads.get(p) {
            Some(known) => match known {
                Some(s) => Some(s.clone()),
                None => None,
            },
            None => {
                self.want(Want::Head(p.copy(), cap));
                None
            },
        }
    }

    /// The text of the file `p`; nothing where it cannot be read or is no text.
    pub fn text(&mut self, p: &FilePath) -> (r: Option<String>)
        requires
            old(self).wf(),
        ensures
            final(self).asked(*old(self)),
            final(self).holds() ==> r.deep_view() == old(self)@.text(p@),
            final(self).wanted.deep_view() == (if old(self).texts@.contains_key(p@) {
                old(self).wanted.deep_view()
            } else {
                old(self).wanted.deep_view().push(WantView::Text(p@))
            }),
    {
        broadcast use group_asks;

        proof {
            reveal(Disk::holds);
        }
        match self.texts.get(p) {
            Some(known) => match known {
                Some(s) => Some(s.clone()),
                None => None,
            },
            None => {
                self.want(Want::Text(p.copy()));
                None
            },
        }
    }

    /// The bytes of the file `p`; nothing where it cannot be read.
    pub fn bytes(&mut self, p: &FilePath) -> (r: Option<Vec<u8>>)
        requires
            old(self).wf(),
        ensures
            final(self).asked(*old(self)),
            final(self).holds() ==> r.deep_view() == old(self)@.bytes(p@),
            final(self).wanted.deep_view() == (if old(self).blobs@.contains_key(p@) {
                old(self).wanted.deep_view()
            } else {
                old(self).wanted.deep_view().push(WantView::Bytes(p@))
            }),
    {
        broadcast use group_asks;

        proof {
            reveal(Disk::holds);
        }
        match self.blobs.get(p) {
            Some(known) => match known {
                Some(v) => {
                    let out = vstd::slice::slice_to_vec(v.as_slice());
                    assert(out.deep_view() =~= v.deep_view());
                    Some(out)
                },
                None => None,
            },
            None => {
                self.want(Want::Bytes(p.copy()));
                None
            },
        }
    }

    /// What the link `p` points to; nothing where `p` is no link.
    pub fn link(&mut self, p: &FilePath) -> (r: Option<FilePath>)
        requires
            old(self).wf(),
        ensures
            final(self).asked(*old(self)),
            final(self).holds() ==> r.deep_view() == old(self)@.link(p@),
            final(self).wanted.deep_view() == (if old(self).links@.contains_key(p@) {
                old(self).wanted.deep_view()
            } else {
                old(self).wanted.deep_view().push(WantView::Link(p@))
            }),
    {
        broadcast use group_asks;

        proof {
            reveal(Disk::holds);
        }
        match self.links.get(p) {
            Some(known) => match known {
                Some(t) => Some(t.copy()),
                None => None,
            },
            None => {
                self.want(Want::Link(p.copy()));
                None
            },
        }
    }

    /// The bytes that the regular file `p` takes on disk; nothing where `p` is none.
    pub fn size(&mut self, p: &FilePath) -> (r: Option<u64>)
        requires
            old(self).wf(),
        ensures
            final(self).asked(*old(self)),
            final(self).holds() ==> r == old(self)@.size(p@),
            final(self).wanted.deep_view() == (if old(self).sizes@.contains_key(p@) {
                old(self).wanted.deep_view()
            } else {
                old(self).wanted.deep_view().push(WantView::Size(p@))
            }),
            r == old(self).facts().size(p@),
    {
        broadcast use group_asks;

        proof {
            reveal(Disk::holds);
        }
        match self.sizes.get(p) {
            Some(known) => {
                assert(known.deep_view() == *known);
                *known
            },
            None => {
                self.want(Want::Size(p.copy()));
                None
            },
        }
    }
}

/// Where all that the table says is true and nothing is wanted, every answer over the table is the
/// answer over the disk.
pub proof fn law_settled_table_holds(disk: Disk)
    requires
        disk.is_true(),
        disk.wanted@.len() == 0,
    ensures
        disk.holds(),
{
    reveal(Disk::holds);
    assert(disk.wanted.deep_view().len() == 0);
}

/// Where the table lacks no fact, whatever is asked leaves it so that every answer over it is the
/// answer over the disk: the answer is owed.
pub proof fn law_complete_table_owes_its_answers(before: Disk, after: Disk)
    requires
        before.holds(),
        before.is_complete(),
        after.asked(before),
    ensures
        after.holds(),
{
    reveal(Disk::holds);
    reveal(asks_anew);
    let was = before.wanted.deep_view();
    let now = after.wanted.deep_view();
    assert(after.stats@ == after.facts().stats && after.listings@ == after.facts().listings);
    assert(after.texts@ == after.facts().texts && after.blobs@ == after.facts().blobs);
    assert(after.links@ == after.facts().links && after.sizes@ == after.facts().sizes);
    assert forall|i: int| 0 <= i < now.len() implies after@.lacks(#[trigger] now[i]) by {
        if i < was.len() {
            assert(before@.lacks(was[i]));
        } else {
            assert(!before.knows(now[i]));
        }
    }
}

/// No question is asked that the table has an answer for: once what is wanted was looked up, it is
/// not wanted again.
pub proof fn law_known_is_not_asked(before: Disk, after: Disk, i: int)
    requires
        after.asked(before),
        before.wanted.deep_view().len() <= i < after.wanted.deep_view().len(),
    ensures
        !before.knows(after.wanted.deep_view()[i]),
        !after.knows(after.wanted.deep_view()[i]),
{
    reveal(asks_anew);
}

/// What is asked leaves the kept heads as they are, so that a file's head, once it is kept, is the
/// same for every later reading, whatever length it asks for.
pub proof fn law_kept_head_stays(before: Disk, after: Disk, p: Seq<Seq<char>>, m: usize, n: usize)
    requires
        after.asked(before),
        before.heads@.contains_key(p),
    ensures
        after@.head(p, m) == before@.head(p, n),
        after.heads@.contains_key(p),
        after.heads@[p] == before.heads@[p],
{
    assert(after.heads@ == after.facts().heads);
    assert(before.heads@ == before.facts().heads);
}

} // verus!
