//! What the app knows of the scans: the findings of every section, how far each scan is, and what
//! waits to be told.

use vstd::prelude::*;

use crate::attribution::model::{Axis, Footprint, FootprintSet, FootprintView, SetView};
use crate::scan::{
    all_scanners, copy_findings, scanner_place, DirTree, Finding, FindingId, FindingKind,
    FindingView, ScanEvent, ScannerId, TreeView, SCANNERS,
};
use crate::doc::field;
use crate::seqs::{flat, lemma_filter_map_start};
use crate::text::same;

use super::mapping;
use super::mapping::{finding_record, section_of, EventRecord, FindingRecord, SectionId};

verus! {

/// When this many findings wait they are told, whatever the time.
pub const FLUSH_THRESHOLD: usize = 200;

/// How far the scan of a section is.
#[derive(Clone, Debug, PartialEq, Eq)]
pub enum Status {
    Idle,
    Scanning,
    Done,
    Failed(String),
}

/// How far the scan of a section is, as a value.
#[verifier::ext_equal]
pub enum StatusView {
    Idle,
    Scanning,
    Done,
    Failed(Seq<char>),
}

impl View for Status {
    type V = StatusView;

    open spec fn view(&self) -> StatusView {
        match self {
            Status::Idle => StatusView::Idle,
            Status::Scanning => StatusView::Scanning,
            Status::Done => StatusView::Done,
            Status::Failed(e) => StatusView::Failed(e@),
        }
    }
}

impl Status {
    /// The same status once more.
    pub fn copy(&self) -> (r: Status)
        ensures
            r@ == self@,
    {
        match self {
            Status::Idle => Status::Idle,
            Status::Scanning => Status::Scanning,
            Status::Done => Status::Done,
            Status::Failed(e) => Status::Failed(e.clone()),
        }
    }
}

/// Findings in the order of their numbers, each number once.
pub open spec fn in_id_order(s: Seq<FindingView>) -> bool {
    forall|i: int, j: int| 0 <= i < j < s.len() ==> (#[trigger] s[i]).id.0 < (#[trigger] s[j]).id.0
}

/// How many findings have a smaller number.
pub open spec fn id_place(s: Seq<FindingView>, id: u64) -> int
    decreases s.len(),
{
    if s.len() == 0 || s.last().id.0 < id {
        s.len() as int
    } else {
        id_place(s.drop_last(), id)
    }
}

/// The findings with a further one, which takes the place of one with the same number.
pub open spec fn with_finding(s: Seq<FindingView>, f: FindingView) -> Seq<FindingView> {
    let k = id_place(s, f.id.0);
    if k < s.len() && s[k].id.0 == f.id.0 {
        s.update(k, f)
    } else {
        s.insert(k, f)
    }
}

/// The findings with all further ones, one behind the other.
pub open spec fn with_findings(s: Seq<FindingView>, more: Seq<FindingView>) -> Seq<FindingView>
    decreases more.len(),
{
    if more.len() == 0 {
        s
    } else {
        with_finding(with_findings(s, more.drop_last()), more.last())
    }
}

/// The finding with this number.
pub open spec fn finding_with_id(s: Seq<FindingView>, id: u64) -> Option<FindingView> {
    let k = id_place(s, id);
    if k < s.len() && s[k].id.0 == id {
        Some(s[k])
    } else {
        None
    }
}

proof fn lemma_id_place(s: Seq<FindingView>, id: u64)
    requires
        in_id_order(s),
    ensures
        0 <= id_place(s, id) <= s.len(),
        forall|i: int| 0 <= i < id_place(s, id) ==> (#[trigger] s[i]).id.0 < id,
        forall|i: int| id_place(s, id) <= i < s.len() ==> (#[trigger] s[i]).id.0 >= id,
    decreases s.len(),
{
    if s.len() > 0 {
        let front = s.drop_last();
        assert forall|i: int, j: int| 0 <= i < j < front.len() implies (#[trigger] front[i]).id.0
            < (#[trigger] front[j]).id.0 by {
            assert(s[i].id.0 < s[j].id.0);
        }
        lemma_id_place(front, id);
        assert forall|i: int| 0 <= i < id_place(s, id) implies (#[trigger] s[i]).id.0 < id by {
            if s.last().id.0 >= id {
                assert(front[i] == s[i]);
            }
        }
        assert forall|i: int| id_place(s, id) <= i < s.len() implies (#[trigger] s[i]).id.0
            >= id by {
            if i < front.len() {
                assert(front[i] == s[i]);
            }
        }
    }
}

proof fn lemma_place_is(s: Seq<FindingView>, id: u64, k: int)
    requires
        in_id_order(s),
        0 <= k <= s.len(),
        forall|i: int| 0 <= i < k ==> (#[trigger] s[i]).id.0 < id,
        forall|i: int| k <= i < s.len() ==> (#[trigger] s[i]).id.0 >= id,
    ensures
        id_place(s, id) == k,
{
    lemma_id_place(s, id);
    let p = id_place(s, id);
    if p < k {
        assert(s[p].id.0 < id);
    }
    if k < p {
        assert(s[k].id.0 >= id);
    }
}

/// A finding that was put in is found under its number, every other number gives what it gave, and
/// the findings stay in the order of their numbers.
#[verifier::spinoff_prover]
#[verifier::rlimit(60)]
pub proof fn law_put_finding_is_found(s: Seq<FindingView>, f: FindingView, id: u64)
    requires
        in_id_order(s),
    ensures
        in_id_order(with_finding(s, f)),
        finding_with_id(with_finding(s, f), f.id.0) == Some(f),
        id != f.id.0 ==> finding_with_id(with_finding(s, f), id) == finding_with_id(s, id),
{
    lemma_id_place(s, f.id.0);
    lemma_id_place(s, id);
    let k = id_place(s, f.id.0);
    let p = id_place(s, id);
    let t = with_finding(s, f);
    if k < s.len() && s[k].id.0 == f.id.0 {
        assert forall|i: int, j: int| 0 <= i < j < t.len() implies (#[trigger] t[i]).id.0 < (
        #[trigger] t[j]).id.0 by {
            assert(s[i].id.0 < s[j].id.0);
        }
        assert forall|i: int| 0 <= i < k implies (#[trigger] t[i]).id.0 < f.id.0 by {
            assert(s[i].id.0 < f.id.0);
        }
        assert forall|i: int| k <= i < t.len() implies (#[trigger] t[i]).id.0 >= f.id.0 by {
            assert(s[i].id.0 >= f.id.0);
        }
        lemma_place_is(t, f.id.0, k);
        assert forall|i: int| 0 <= i < p implies (#[trigger] t[i]).id.0 < id by {
            assert(s[i].id.0 < id);
        }
        assert forall|i: int| p <= i < t.len() implies (#[trigger] t[i]).id.0 >= id by {
            assert(s[i].id.0 >= id);
        }
        lemma_place_is(t, id, p);
    } else {
        assert forall|i: int, j: int| 0 <= i < j < t.len() implies (#[trigger] t[i]).id.0 < (
        #[trigger] t[j]).id.0 by {
            if j < k {
                assert(s[i].id.0 < s[j].id.0);
            } else if j == k {
                assert(s[i].id.0 < f.id.0);
            } else if i < k {
                assert(s[i].id.0 < s[j - 1].id.0);
            } else if i == k {
                assert(s[j - 1].id.0 >= f.id.0);
                if j - 1 > k {
                    assert(s[k].id.0 < s[j - 1].id.0);
                }
            } else {
                assert(s[i - 1].id.0 < s[j - 1].id.0);
            }
        }
        assert forall|i: int| 0 <= i < k implies (#[trigger] t[i]).id.0 < f.id.0 by {
            assert(s[i].id.0 < f.id.0);
        }
        assert forall|i: int| k <= i < t.len() implies (#[trigger] t[i]).id.0 >= f.id.0 by {
            if i > k {
                assert(s[i - 1].id.0 >= f.id.0);
            }
        }
        lemma_place_is(t, f.id.0, k);
        let q = if id <= f.id.0 {
            p
        } else {
            p + 1
        };
        if id != f.id.0 {
            if id < f.id.0 {
                assert(p <= k) by {
                    if k < p {
                        assert(s[k].id.0 < id);
                    }
                }
            } else {
                assert(k <= p) by {
                    if p < k {
                        assert(s[p].id.0 < f.id.0);
                    }
                }
            }
            assert forall|i: int| 0 <= i < q implies (#[trigger] t[i]).id.0 < id by {
                if i < k {
                    assert(s[i].id.0 < f.id.0);
                    if id < f.id.0 {
                        assert(s[i].id.0 < id);
                    }
                } else if i > k {
                    assert(s[i - 1].id.0 < id);
                }
            }
            assert forall|i: int| q <= i < t.len() implies (#[trigger] t[i]).id.0 >= id by {
                if i < k {
                    assert(s[i].id.0 >= id);
                } else if i > k {
                    assert(s[i - 1].id.0 >= id);
                }
            }
            lemma_place_is(t, id, q);
            if q < t.len() && t[q].id.0 == id {
                if q < k {
                    assert(t[q] == s[p]);
                } else {
                    assert(q != k);
                    assert(t[q] == s[q - 1]);
                }
            }
        }
    }
}

/// Find the place of a number.
fn find_place(v: &Vec<Finding>, id: u64) -> (r: usize)
    ensures
        r == id_place(v.deep_view(), id),
        r <= v.len(),
{
    let ghost s = v.deep_view();
    let mut n: usize = v.len();
    assert(s.take(n as int) =~= s);
    while n > 0 && v[n - 1].id.0 >= id
        invariant
            n <= v.len(),
            s == v.deep_view(),
            id_place(s, id) == id_place(s.take(n as int), id),
        decreases n,
    {
        proof {
            assert(s.take(n as int).last() == v@[n - 1]@);
            assert(s.take(n as int).drop_last() =~= s.take(n - 1));
        }
        n = n - 1;
    }
    proof {
        if n > 0 {
            assert(s.take(n as int).last() == v@[n - 1]@);
        }
    }
    n
}

fn put_finding(v: &mut Vec<Finding>, f: Finding)
    requires
        in_id_order(old(v).deep_view()),
    ensures
        final(v).deep_view() == with_finding(old(v).deep_view(), f@),
        in_id_order(final(v).deep_view()),
{
    let ghost s = v.deep_view();
    proof {
        law_put_finding_is_found(s, f@, f@.id.0);
    }
    let k = find_place(v, f.id.0);
    if k < v.len() && v[k].id.0 == f.id.0 {
        assert(s[k as int] == v@[k as int]@);
        v.set(k, f);
        assert(v.deep_view() =~= s.update(k as int, f@));
    } else {
        if k < v.len() {
            assert(s[k as int] == v@[k as int]@);
        }
        v.insert(k, f);
        assert(v.deep_view() =~= s.insert(k as int, f@));
    }
}

fn put_findings(v: &mut Vec<Finding>, more: &Vec<Finding>)
    requires
        in_id_order(old(v).deep_view()),
    ensures
        final(v).deep_view() == with_findings(old(v).deep_view(), more.deep_view()),
        in_id_order(final(v).deep_view()),
{
    let ghost s = v.deep_view();
    let ghost all = more.deep_view();
    let mut i: usize = 0;
    assert(with_findings(s, all.take(0)) == s);
    while i < more.len()
        invariant
            i <= more.len(),
            all == more.deep_view(),
            in_id_order(v.deep_view()),
            v.deep_view() == with_findings(s, all.take(i as int)),
        decreases more.len() - i,
    {
        proof {
            assert(all.take(i + 1).drop_last() =~= all.take(i as int));
            assert(all.take(i + 1).last() == more@[i as int]@);
        }
        put_finding(v, more[i].copy());
        i = i + 1;
    }
    assert(all.take(i as int) =~= all);
}

/// The finding with this number.
pub fn find_finding<'a>(v: &'a Vec<Finding>, id: FindingId) -> (r: Option<&'a Finding>)
    ensures
        r.deep_view() == finding_with_id(v.deep_view(), id.0),
{
    let k = find_place(v, id.0);
    if k < v.len() && v[k].id.0 == id.0 {
        assert(v.deep_view()[k as int] == v@[k as int]@);
        Some(&v[k])
    } else {
        if k < v.len() {
            assert(v.deep_view()[k as int] == v@[k as int]@);
        }
        None
    }
}

/// What is known of a section.
#[derive(Debug)]
pub struct Slot {
    pub findings: Vec<Finding>,
    /// The scan whose events count.
    pub expected_gen: Option<u64>,
    pub status: Status,
}

/// What is known of a section, as a value.
#[verifier::ext_equal]
pub struct SlotView {
    pub findings: Seq<FindingView>,
    pub expected_gen: Option<u64>,
    pub status: StatusView,
}

impl View for Slot {
    type V = SlotView;

    open spec fn view(&self) -> SlotView {
        SlotView {
            findings: self.findings.deep_view(),
            expected_gen: self.expected_gen,
            status: self.status@,
        }
    }
}

/// A section of which nothing is known.
pub open spec fn idle_slot() -> SlotView {
    SlotView { findings: seq![], expected_gen: None, status: StatusView::Idle }
}

/// What is known of all sections.
#[derive(Debug)]
pub struct Session {
    /// One place for each section.
    pub slots: Vec<Slot>,
    /// The sections whose findings are looked at together once they are all done.
    pub correlated: Vec<ScannerId>,
    /// The last scan that had one of those sections in it.
    pub full_scan_gen: u64,
    /// The scan after which the findings were last looked at together.
    pub correlated_gen: u64,
}

/// What is known of all sections, as a value.
#[verifier::ext_equal]
pub struct SessionView {
    pub slots: Map<ScannerId, SlotView>,
    pub correlated: Seq<ScannerId>,
    pub full_scan_gen: u64,
    pub correlated_gen: u64,
}

impl View for Session {
    type V = SessionView;

    open spec fn view(&self) -> SessionView {
        SessionView {
            slots: Map::new(|id: ScannerId| true, |id: ScannerId| self.slots@[scanner_place(id)]@),
            correlated: self.correlated@,
            full_scan_gen: self.full_scan_gen,
            correlated_gen: self.correlated_gen,
        }
    }
}

/// A section when a scan of it begins.
pub open spec fn begun_slot(gen: u64) -> SlotView {
    SlotView { findings: seq![], expected_gen: Some(gen), status: StatusView::Scanning }
}

/// The sections when a scan of `ids` begins.
pub open spec fn begun_slots(slots: Map<ScannerId, SlotView>, gen: u64, ids: Seq<ScannerId>) -> Map<
    ScannerId,
    SlotView,
>
    decreases ids.len(),
{
    if ids.len() == 0 {
        slots
    } else {
        begun_slots(slots, gen, ids.drop_last()).insert(ids.last(), begun_slot(gen))
    }
}

/// Whether a scan of `ids` has to do with the sections that are looked at together: it has one of
/// them in it, or all sections.
pub open spec fn concerns_correlation(correlated: Seq<ScannerId>, ids: Seq<ScannerId>) -> bool {
    ||| forall|i: int| 0 <= i < all_scanners().len() ==> ids.contains(#[trigger] all_scanners()[i])
    ||| exists|i: int| 0 <= i < ids.len() && correlated.contains(#[trigger] ids[i])
}

/// What is known when a scan of `ids` begins.
pub open spec fn begun(s: SessionView, gen: u64, ids: Seq<ScannerId>) -> SessionView {
    SessionView {
        slots: begun_slots(s.slots, gen, ids),
        full_scan_gen: if concerns_correlation(s.correlated, ids) {
            gen
        } else {
            s.full_scan_gen
        },
        ..s
    }
}

/// Whether an event belongs to the scan that counts for its section.
pub open spec fn is_expected(s: SessionView, ev: ScanEvent) -> bool {
    s.slots[ev.spec_scanner()].expected_gen == Some(ev.spec_generation())
}

/// A section when an event of its scan has come in.
pub open spec fn applied_slot(s: SlotView, ev: ScanEvent) -> SlotView {
    match ev {
        ScanEvent::Started { .. } => SlotView {
            findings: seq![],
            status: StatusView::Scanning,
            ..s
        },
        ScanEvent::Finding { finding, .. } => SlotView {
            findings: with_finding(s.findings, finding@),
            ..s
        },
        ScanEvent::Finished { .. } => SlotView { status: StatusView::Done, ..s },
        ScanEvent::Failed { error, .. } => SlotView { status: StatusView::Failed(error@), ..s },
        _ => s,
    }
}

/// What is known when an event has come in.
pub open spec fn applied(s: SessionView, ev: ScanEvent) -> SessionView {
    if is_expected(s, ev) {
        SessionView {
            slots: s.slots.insert(
                ev.spec_scanner(),
                applied_slot(s.slots[ev.spec_scanner()], ev),
            ),
            ..s
        }
    } else {
        s
    }
}

/// Whether a scan has ended.
pub open spec fn is_terminal(s: StatusView) -> bool {
    s is Done || s is Failed
}

/// Whether the scans of all these sections have ended.
pub open spec fn all_terminal(s: SessionView, ids: Seq<ScannerId>) -> bool {
    forall|i: int| 0 <= i < ids.len() ==> is_terminal(s.slots[#[trigger] ids[i]].status)
}

/// The findings of these sections together.
pub open spec fn gathered(s: SessionView, ids: Seq<ScannerId>) -> Seq<FindingView>
    decreases ids.len(),
{
    if ids.len() == 0 {
        seq![]
    } else {
        with_findings(gathered(s, ids.drop_last()), s.slots[ids.last()].findings)
    }
}

/// What is known when a finding has been put into its section.
pub open spec fn upserted(s: SessionView, f: FindingView) -> SessionView {
    SessionView {
        slots: s.slots.insert(
            f.section,
            SlotView {
                findings: with_finding(s.slots[f.section].findings, f),
                ..s.slots[f.section]
            },
        ),
        ..s
    }
}

/// What is known when findings have been put into their sections.
pub open spec fn all_upserted(s: SessionView, fs: Seq<FindingView>) -> SessionView
    decreases fs.len(),
{
    if fs.len() == 0 {
        s
    } else {
        upserted(all_upserted(s, fs.drop_last()), fs.last())
    }
}

/// Whether a finding belongs to a scan that still counts for its section.
pub open spec fn is_current(s: SessionView, gen: u64) -> spec_fn(FindingView) -> bool {
    |f: FindingView| s.slots[f.section].expected_gen == Some(gen)
}

/// Whether it is time to look at the findings together: the sections that belong together are done,
/// and it has not been done after their last scan.
pub open spec fn correlation_due(s: SessionView) -> bool {
    s.correlated_gen != s.full_scan_gen && all_terminal(s, s.correlated)
}

/// A section whose scan has failed.
pub open spec fn has_failed(s: SessionView) -> spec_fn(ScannerId) -> bool {
    |id: ScannerId| s.slots[id].status is Failed
}

proof fn lemma_places_differ(a: ScannerId, b: ScannerId)
    requires
        a != b,
    ensures
        scanner_place(a) != scanner_place(b),
{
}

fn holds_id(ids: &[ScannerId], id: ScannerId) -> (r: bool)
    ensures
        r == ids@.contains(id),
{
    let mut i: usize = 0;
    while i < ids.len()
        invariant
            i <= ids.len(),
            forall|j: int| 0 <= j < i ==> ids@[j] != id,
        decreases ids.len() - i,
    {
        if ids[i] == id {
            return true;
        }
        i = i + 1;
    }
    false
}

fn concerns(correlated: &Vec<ScannerId>, ids: &[ScannerId]) -> (r: bool)
    ensures
        r == concerns_correlation(correlated@, ids@),
{
    let mut i: usize = 0;
    while i < ids.len()
        invariant
            i <= ids.len(),
            forall|j: int| 0 <= j < i ==> !correlated@.contains(#[trigger] ids@[j]),
        decreases ids.len() - i,
    {
        if holds_id(correlated.as_slice(), ids[i]) {
            return true;
        }
        i = i + 1;
    }
    let every = ScannerId::all();
    let mut k: usize = 0;
    while k < every.len()
        invariant
            k <= every.len(),
            every@ == all_scanners(),
            forall|j: int| 0 <= j < ids@.len() ==> !correlated@.contains(#[trigger] ids@[j]),
            forall|j: int| 0 <= j < k ==> ids@.contains(#[trigger] all_scanners()[j]),
        decreases every.len() - k,
    {
        if !holds_id(ids, every[k]) {
            assert(!ids@.contains(all_scanners()[k as int]));
            return false;
        }
        k = k + 1;
    }
    true
}

impl Session {
    /// Each section has its place, and its findings are in order.
    pub open spec fn wf(self) -> bool {
        &&& self.slots@.len() == SCANNERS
        &&& forall|i: int|
            0 <= i < SCANNERS ==> in_id_order((#[trigger] self.slots@[i])@.findings)
    }

    /// Nothing is known yet.
    pub fn new(correlated: Vec<ScannerId>) -> (r: Session)
        ensures
            r.wf(),
            r@ == (SessionView {
                slots: Map::new(|id: ScannerId| true, |id: ScannerId| idle_slot()),
                correlated: correlated@,
                full_scan_gen: 0,
                correlated_gen: 0,
            }),
    {
        let mut slots: Vec<Slot> = Vec::new();
        let mut i: usize = 0;
        while i < SCANNERS
            invariant
                i <= SCANNERS,
                slots.len() == i,
                forall|j: int| 0 <= j < i ==> (#[trigger] slots@[j])@ == idle_slot(),
            decreases SCANNERS - i,
        {
            let s = Slot { findings: Vec::new(), expected_gen: None, status: Status::Idle };
            assert(s@ =~= idle_slot());
            slots.push(s);
            i = i + 1;
        }
        let r = Session { slots, correlated, full_scan_gen: 0, correlated_gen: 0 };
        assert(r@.slots =~= Map::new(|id: ScannerId| true, |id: ScannerId| idle_slot())) by {
            assert forall|id: ScannerId| 0 <= #[trigger] scanner_place(id) < SCANNERS by {}
        }
        r
    }

    fn set_slot(&mut self, id: ScannerId, slot: Slot)
        requires
            old(self).wf(),
            in_id_order(slot@.findings),
        ensures
            final(self).wf(),
            final(self)@ == (SessionView {
                slots: old(self)@.slots.insert(id, slot@),
                ..old(self)@
            }),
    {
        let ghost was = self@;
        let n = id.place();
        self.slots.set(n, slot);
        proof {
            assert forall|x: ScannerId| x != id implies scanner_place(x) != scanner_place(id) by {
                lemma_places_differ(x, id);
            }
            assert forall|x: ScannerId| 0 <= #[trigger] scanner_place(x) < SCANNERS by {}
            assert(self@.slots =~= was.slots.insert(id, slot@));
        }
    }

    fn take_findings(&mut self, id: ScannerId) -> (r: Vec<Finding>)
        requires
            old(self).wf(),
        ensures
            final(self).wf(),
            r.deep_view() == old(self)@.slots[id].findings,
            final(self)@ == (SessionView {
                slots: old(self)@.slots.insert(
                    id,
                    (SlotView { findings: seq![], ..old(self)@.slots[id] }),
                ),
                ..old(self)@
            }),
    {
        let ghost was = self@;
        let n = id.place();
        let expected_gen = self.slots[n].expected_gen;
        let status = self.slots[n].status.copy();
        let mut findings: Vec<Finding> = Vec::new();
        std::mem::swap(&mut findings, &mut self.slots[n].findings);
        let slot = Slot { findings: Vec::new(), expected_gen, status };
        assert(slot@ =~= (SlotView { findings: seq![], ..was.slots[id] }));
        self.slots.set(n, slot);
        proof {
            assert forall|x: ScannerId| x != id implies scanner_place(x) != scanner_place(id) by {
                lemma_places_differ(x, id);
            }
            assert forall|x: ScannerId| 0 <= #[trigger] scanner_place(x) < SCANNERS by {}
            assert(self@.slots =~= was.slots.insert(id, slot@));
        }
        findings
    }

    /// Begin a scan: from now on only its events count for the sections, and nothing is known of
    /// them yet.
    pub fn begin_scan(&mut self, gen: u64, sections: &[ScannerId])
        requires
            old(self).wf(),
        ensures
            final(self).wf(),
            final(self)@ == begun(old(self)@, gen, sections@),
    {
        let ghost was = self@;
        let mut i: usize = 0;
        assert(begun_slots(was.slots, gen, sections@.take(0)) == was.slots);
        while i < sections.len()
            invariant
                i <= sections.len(),
                self.wf(),
                self@ == (SessionView {
                    slots: begun_slots(was.slots, gen, sections@.take(i as int)),
                    ..was
                }),
            decreases sections.len() - i,
        {
            proof {
                assert(sections@.take(i + 1).drop_last() =~= sections@.take(i as int));
                assert(sections@.take(i + 1).last() == sections@[i as int]);
            }
            let slot = Slot {
                findings: Vec::new(),
                expected_gen: Some(gen),
                status: Status::Scanning,
            };
            assert(slot@ =~= begun_slot(gen));
            self.set_slot(sections[i], slot);
            i = i + 1;
        }
        assert(sections@.take(i as int) =~= sections@);
        if concerns(&self.correlated, sections) {
            self.full_scan_gen = gen;
        }
    }

    /// Take in an event; one that does not belong to the scan that counts for its section is
    /// dropped. The result says whether it was taken in.
    pub fn apply(&mut self, ev: &ScanEvent) -> (r: bool)
        requires
            old(self).wf(),
        ensures
            final(self).wf(),
            r == is_expected(old(self)@, *ev),
            final(self)@ == applied(old(self)@, *ev),
    {
        let ghost was = self@;
        let id = ev.scanner();
        let gen = ev.generation();
        let n = id.place();
        let expected = match self.slots[n].expected_gen {
            Some(g) => g == gen,
            None => false,
        };
        if !expected {
            return false;
        }
        match ev {
            ScanEvent::Started { .. } => {
                let slot = Slot {
                    findings: Vec::new(),
                    expected_gen: Some(gen),
                    status: Status::Scanning,
                };
                assert(slot@ =~= applied_slot(was.slots[id], *ev));
                self.set_slot(id, slot);
            },
            ScanEvent::Finding { finding, .. } => {
                let mut findings = self.take_findings(id);
                put_finding(&mut findings, finding.copy());
                assert(self.slots@[n as int]@ == self@.slots[id]);
                let status = self.slots[n].status.copy();
                let slot = Slot { findings, expected_gen: Some(gen), status };
                assert(slot@ =~= applied_slot(was.slots[id], *ev));
                self.set_slot(id, slot);
                assert(self@.slots =~= was.slots.insert(id, slot@));
            },
            ScanEvent::Finished { .. } => {
                let findings = self.take_findings(id);
                let slot = Slot { findings, expected_gen: Some(gen), status: Status::Done };
                assert(slot@ =~= applied_slot(was.slots[id], *ev));
                self.set_slot(id, slot);
                assert(self@.slots =~= was.slots.insert(id, slot@));
            },
            ScanEvent::Failed { error, .. } => {
                let findings = self.take_findings(id);
                let slot = Slot {
                    findings,
                    expected_gen: Some(gen),
                    status: Status::Failed(error.clone()),
                };
                assert(slot@ =~= applied_slot(was.slots[id], *ev));
                self.set_slot(id, slot);
                assert(self@.slots =~= was.slots.insert(id, slot@));
            },
            ScanEvent::Progress { .. } => {
                assert(was.slots.insert(id, was.slots[id]) =~= was.slots);
            },
            ScanEvent::DirTree { .. } => {
                assert(was.slots.insert(id, was.slots[id]) =~= was.slots);
            },
            ScanEvent::Footprints { .. } => {
                assert(was.slots.insert(id, was.slots[id]) =~= was.slots);
            },
        }
        true
    }

    /// How far the scan of a section is.
    pub fn status_of(&self, id: ScannerId) -> (r: Status)
        requires
            self.wf(),
        ensures
            r@ == self@.slots[id].status,
    {
        let n = id.place();
        self.slots[n].status.copy()
    }

    /// Whether the scans of all these sections have ended.
    pub fn sections_terminal(&self, sections: &[ScannerId]) -> (r: bool)
        requires
            self.wf(),
        ensures
            r == all_terminal(self@, sections@),
    {
        let mut i: usize = 0;
        while i < sections.len()
            invariant
                i <= sections.len(),
                self.wf(),
                forall|j: int|
                    0 <= j < i ==> is_terminal(self@.slots[#[trigger] sections@[j]].status),
            decreases sections.len() - i,
        {
            let n = sections[i].place();
            let done = match &self.slots[n].status {
                Status::Done => true,
                Status::Failed(_) => true,
                _ => false,
            };
            if !done {
                assert(!is_terminal(self@.slots[sections@[i as int]].status));
                return false;
            }
            i = i + 1;
        }
        true
    }

    /// The findings of a section, in the order of their numbers.
    pub fn section_findings(&self, id: ScannerId) -> (r: Vec<Finding>)
        requires
            self.wf(),
        ensures
            r.deep_view() == self@.slots[id].findings,
            in_id_order(r.deep_view()),
    {
        let n = id.place();
        copy_findings(&self.slots[n].findings)
    }

    fn gather(&self, ids: &Vec<ScannerId>) -> (r: Vec<Finding>)
        requires
            self.wf(),
        ensures
            r.deep_view() == gathered(self@, ids@),
            in_id_order(r.deep_view()),
    {
        let mut out: Vec<Finding> = Vec::new();
        let mut i: usize = 0;
        assert(out.deep_view() =~= gathered(self@, ids@.take(0)));
        while i < ids.len()
            invariant
                i <= ids.len(),
                self.wf(),
                in_id_order(out.deep_view()),
                out.deep_view() == gathered(self@, ids@.take(i as int)),
            decreases ids.len() - i,
        {
            proof {
                assert(ids@.take(i + 1).drop_last() =~= ids@.take(i as int));
                assert(ids@.take(i + 1).last() == ids@[i as int]);
            }
            let n = ids[i].place();
            put_findings(&mut out, &self.slots[n].findings);
            i = i + 1;
        }
        assert(ids@.take(i as int) =~= ids@);
        out
    }

    /// The findings of all sections together, in the order of their numbers.
    pub fn all_findings(&self) -> (r: Vec<Finding>)
        requires
            self.wf(),
        ensures
            r.deep_view() == gathered(self@, all_scanners()),
            in_id_order(r.deep_view()),
    {
        self.gather(&ScannerId::all())
    }

    /// The findings of the sections that are looked at together.
    pub fn correlated_findings(&self) -> (r: Vec<Finding>)
        requires
            self.wf(),
        ensures
            r.deep_view() == gathered(self@, self@.correlated),
            in_id_order(r.deep_view()),
    {
        self.gather(&self.correlated)
    }

    fn upsert(&mut self, f: Finding)
        requires
            old(self).wf(),
        ensures
            final(self).wf(),
            final(self)@ == upserted(old(self)@, f@),
    {
        let ghost was = self@;
        let ghost fv = f@;
        let id = f.section;
        let n = id.place();
        let mut findings = self.take_findings(id);
        put_finding(&mut findings, f);
        assert(self.slots@[n as int]@ == self@.slots[id]);
        let expected_gen = self.slots[n].expected_gen;
        let status = self.slots[n].status.copy();
        let slot = Slot { findings, expected_gen, status };
        assert(slot@ =~= (SlotView {
            findings: with_finding(was.slots[id].findings, fv),
            ..was.slots[id]
        }));
        self.set_slot(id, slot);
        assert(self@.slots =~= was.slots.insert(id, slot@));
    }

    /// Put findings that were rewritten back into their sections.
    pub fn apply_correlated(&mut self, rewritten: &Vec<Finding>)
        requires
            old(self).wf(),
        ensures
            final(self).wf(),
            final(self)@ == all_upserted(old(self)@, rewritten.deep_view()),
    {
        let ghost was = self@;
        let ghost all = rewritten.deep_view();
        let mut i: usize = 0;
        assert(all_upserted(was, all.take(0)) == was);
        while i < rewritten.len()
            invariant
                i <= rewritten.len(),
                all == rewritten.deep_view(),
                self.wf(),
                self@ == all_upserted(was, all.take(i as int)),
            decreases rewritten.len() - i,
        {
            proof {
                assert(all.take(i + 1).drop_last() =~= all.take(i as int));
                assert(all.take(i + 1).last() == rewritten@[i as int]@);
            }
            self.upsert(rewritten[i].copy());
            i = i + 1;
        }
        assert(all.take(i as int) =~= all);
    }

    /// Put findings that were enriched after the scan `gen` into their sections. One whose section
    /// has begun another scan since is dropped. The result holds those that were put in.
    pub fn apply_enriched(&mut self, gen: u64, findings: Vec<Finding>) -> (r: Vec<Finding>)
        requires
            old(self).wf(),
        ensures
            final(self).wf(),
            r.deep_view() == findings.deep_view().filter(is_current(old(self)@, gen)),
            final(self)@ == all_upserted(
                old(self)@,
                findings.deep_view().filter(is_current(old(self)@, gen)),
            ),
    {
        let ghost was = self@;
        let ghost all = findings.deep_view();
        let ghost keep = is_current(was, gen);
        let mut kept: Vec<Finding> = Vec::new();
        let mut i: usize = 0;
        proof {
            assert(all.take(0) =~= seq![]);
            reveal(Seq::filter);
            assert(kept.deep_view() =~= all.take(0).filter(keep));
            assert(all_upserted(was, kept.deep_view()) == was);
            assert(forall|x: ScannerId| was.slots.contains_key(x));
        }
        while i < findings.len()
            invariant
                i <= findings.len(),
                forall|x: ScannerId| was.slots.contains_key(x),
                all == findings.deep_view(),
                keep == is_current(was, gen),
                self.wf(),
                kept.deep_view() == all.take(i as int).filter(keep),
                self@ == all_upserted(was, kept.deep_view()),
            decreases findings.len() - i,
        {
            let ghost before = kept.deep_view();
            proof {
                reveal(Seq::filter);
                assert(all.take(i + 1).drop_last() =~= all.take(i as int));
                assert(all.take(i + 1).last() == findings@[i as int]@);
                lemma_upserts_keep_expected(was, before, findings@[i as int]@.section);
            }
            let n = findings[i].section.place();
            let current = match self.slots[n].expected_gen {
                Some(g) => g == gen,
                None => false,
            };
            assert(current == keep(findings@[i as int]@));
            if current {
                self.upsert(findings[i].copy());
                let f = findings[i].copy();
                kept.push(f);
                proof {
                    assert(kept.deep_view() =~= before.push(f@));
                    assert(kept.deep_view().drop_last() =~= before);
                    assert(kept.deep_view().last() == f@);
                }
            }
            assert(kept.deep_view() =~= all.take(i + 1).filter(keep));
            i = i + 1;
        }
        assert(all.take(i as int) =~= all);
        kept
    }

    /// Whether it is time to look at the findings together, and after which scan. Asked again after
    /// the same scan, it is not.
    pub fn take_due_correlation(&mut self) -> (r: Option<u64>)
        requires
            old(self).wf(),
        ensures
            final(self).wf(),
            r == (if correlation_due(old(self)@) {
                Some(old(self)@.full_scan_gen)
            } else {
                None
            }),
            final(self)@ == (if correlation_due(old(self)@) {
                SessionView { correlated_gen: old(self)@.full_scan_gen, ..old(self)@ }
            } else {
                old(self)@
            }),
            !correlation_due(final(self)@),
    {
        let ghost was = self@;
        if self.correlated_gen != self.full_scan_gen && self.sections_terminal(
            self.correlated.as_slice(),
        ) {
            let gen = self.full_scan_gen;
            self.correlated_gen = gen;
            assert(self@.slots =~= was.slots);
            Some(gen)
        } else {
            None
        }
    }

    /// The sections among these whose scan has failed.
    pub fn failed_sections(&self, sections: &[ScannerId]) -> (r: Vec<ScannerId>)
        requires
            self.wf(),
        ensures
            r@ == sections@.filter(has_failed(self@)),
    {
        let ghost keep = has_failed(self@);
        let mut out: Vec<ScannerId> = Vec::new();
        let mut i: usize = 0;
        proof {
            assert(sections@.take(0) =~= seq![]);
            reveal(Seq::filter);
            assert(out@ =~= sections@.take(0).filter(keep));
        }
        while i < sections.len()
            invariant
                i <= sections.len(),
                self.wf(),
                keep == has_failed(self@),
                out@ == sections@.take(i as int).filter(keep),
            decreases sections.len() - i,
        {
            proof {
                reveal(Seq::filter);
                assert(sections@.take(i + 1).drop_last() =~= sections@.take(i as int));
                assert(sections@.take(i + 1).last() == sections@[i as int]);
            }
            let n = sections[i].place();
            let failed = match &self.slots[n].status {
                Status::Failed(_) => true,
                _ => false,
            };
            if failed {
                out.push(sections[i]);
            }
            assert(out@ =~= sections@.take(i + 1).filter(keep));
            i = i + 1;
        }
        assert(sections@.take(i as int) =~= sections@);
        out
    }
}

proof fn lemma_upserts_keep_expected(s: SessionView, fs: Seq<FindingView>, id: ScannerId)
    requires
        forall|x: ScannerId| s.slots.contains_key(x),
    ensures
        all_upserted(s, fs).slots[id].expected_gen == s.slots[id].expected_gen,
        forall|x: ScannerId| all_upserted(s, fs).slots.contains_key(x),
    decreases fs.len(),
{
    if fs.len() > 0 {
        lemma_upserts_keep_expected(s, fs.drop_last(), id);
        lemma_upserts_keep_expected(s, fs.drop_last(), fs.last().section);
    }
}

/// Findings that the network has said something about: apps for which a cask is known.
pub open spec fn is_enriched() -> spec_fn(FindingView) -> bool {
    |f: FindingView| f.kind == FindingKind::App && field(f.meta, "available_cask"@) is Some
}

/// Those of the findings that the network has said something about: apps for which a cask is known.
pub fn enriched_only(findings: &Vec<Finding>) -> (r: Vec<Finding>)
    ensures
        r.deep_view() == findings.deep_view().filter(is_enriched()),
{
    let ghost all = findings.deep_view();
    let mut out: Vec<Finding> = Vec::new();
    let mut i: usize = 0;
    proof {
        assert(all.take(0) =~= seq![]);
        reveal(Seq::filter);
        assert(out.deep_view() =~= all.take(0).filter(is_enriched()));
    }
    while i < findings.len()
        invariant
            i <= findings.len(),
            all == findings.deep_view(),
            out.deep_view() == all.take(i as int).filter(is_enriched()),
        decreases findings.len() - i,
    {
        let ghost was = out.deep_view();
        proof {
            reveal(Seq::filter);
            assert(all.take(i + 1).drop_last() =~= all.take(i as int));
            assert(all.take(i + 1).last() == findings@[i as int]@);
        }
        if findings[i].kind == FindingKind::App && findings[i].meta.get(
            "available_cask",
        ).is_some() {
            let f = findings[i].copy();
            out.push(f);
            assert(out.deep_view() =~= was.push(f@));
        }
        assert(out.deep_view() =~= all.take(i + 1).filter(is_enriched()));
        i = i + 1;
    }
    assert(all.take(i as int) =~= all);
    out
}

/// Findings of one scan of one section that wait to be told.
#[derive(Debug)]
pub struct Batch {
    pub scanner: ScannerId,
    pub gen: u64,
    pub findings: Vec<mapping::Finding>,
}

/// Findings that wait to be told, as a value.
#[verifier::ext_equal]
pub struct BatchView {
    pub scanner: ScannerId,
    pub gen: u64,
    pub findings: Seq<FindingRecord>,
}

impl DeepView for Batch {
    type V = BatchView;

    open spec fn deep_view(&self) -> BatchView {
        BatchView {
            scanner: self.scanner,
            gen: self.gen,
            findings: self.findings.deep_view(),
        }
    }
}

/// What waits to be told: findings in the order in which they came, and of each section the latest
/// word on its progress.
#[derive(Debug)]
pub struct Pending {
    pub findings: Vec<Batch>,
    /// One place for each section.
    pub progress: Vec<Option<mapping::ScanEvent>>,
    pub count: usize,
}

/// What waits to be told, as a value.
#[verifier::ext_equal]
pub struct PendingView {
    pub findings: Seq<BatchView>,
    pub progress: Map<ScannerId, EventRecord>,
    pub count: nat,
}

impl View for Pending {
    type V = PendingView;

    open spec fn view(&self) -> PendingView {
        PendingView {
            findings: self.findings.deep_view(),
            progress: Map::new(
                |id: ScannerId| self.progress@[scanner_place(id)] is Some,
                |id: ScannerId| self.progress@[scanner_place(id)]->0@,
            ),
            count: self.count as nat,
        }
    }
}

/// Nothing waits.
pub open spec fn nothing_pending() -> PendingView {
    PendingView { findings: seq![], progress: Map::empty(), count: 0 }
}

/// The batches with a further finding: in the last of them where it is of the same scan of the same
/// section, else in a batch of its own.
pub open spec fn batched(b: Seq<BatchView>, scanner: ScannerId, gen: u64, f: FindingRecord) -> Seq<
    BatchView,
> {
    if b.len() > 0 && b.last().scanner == scanner && b.last().gen == gen {
        b.update(
            b.len() - 1,
            BatchView { findings: b.last().findings.push(f), ..b.last() },
        )
    } else {
        b.push(BatchView { scanner, gen, findings: seq![f] })
    }
}

/// What waits when a finding has come.
pub open spec fn with_pending_finding(
    p: PendingView,
    scanner: ScannerId,
    gen: u64,
    f: FindingRecord,
) -> PendingView {
    PendingView {
        findings: batched(p.findings, scanner, gen, f),
        count: p.count + 1,
        ..p
    }
}

/// What is told of a batch.
pub open spec fn batch_event(b: BatchView) -> EventRecord {
    EventRecord::Findings { section: section_of(b.scanner), gen: b.gen, findings: b.findings }
}

/// What is told of the progress of a section.
pub open spec fn progress_event(p: PendingView) -> spec_fn(ScannerId) -> Option<EventRecord> {
    |id: ScannerId|
        if p.progress.contains_key(id) {
            Some(p.progress[id])
        } else {
            None
        }
}

/// What is told of everything that waits: the batches in their order, then the progress of the
/// sections.
pub open spec fn drained(p: PendingView) -> Seq<EventRecord> {
    Seq::new(p.findings.len(), |i: int| batch_event(p.findings[i])) + all_scanners().filter_map(
        progress_event(p),
    )
}

/// The findings that wait, in the order in which they are told, each with its section and scan.
pub open spec fn queued(b: Seq<BatchView>) -> Seq<(ScannerId, u64, FindingRecord)> {
    flat(
        b,
        |x: BatchView|
            Seq::new(x.findings.len(), |i: int| (x.scanner, x.gen, x.findings[i])),
    )
}

/// No finding is lost, and none overtakes another: a finding that comes is told behind all that came
/// before it.
pub proof fn law_findings_are_told_in_the_order_they_came(
    b: Seq<BatchView>,
    scanner: ScannerId,
    gen: u64,
    f: FindingRecord,
)
    ensures
        queued(batched(b, scanner, gen, f)) == queued(b).push((scanner, gen, f)),
{
    let g = |x: BatchView|
        Seq::new(x.findings.len(), |i: int| (x.scanner, x.gen, x.findings[i]));
    let t = batched(b, scanner, gen, f);
    if b.len() > 0 && b.last().scanner == scanner && b.last().gen == gen {
        assert(t.drop_last() =~= b.drop_last());
        assert(g(t.last()) =~= g(b.last()).push((scanner, gen, f)));
        assert(queued(t) =~= queued(b).push((scanner, gen, f)));
    } else {
        assert(t.drop_last() =~= b);
        assert(g(t.last()) =~= seq![(scanner, gen, f)]);
        assert(queued(t) =~= queued(b).push((scanner, gen, f)));
    }
}

impl Pending {
    /// Each section has its place.
    pub open spec fn wf(self) -> bool {
        self.progress@.len() == SCANNERS
    }

    /// Nothing waits.
    pub fn new() -> (r: Pending)
        ensures
            r.wf(),
            r@ == nothing_pending(),
    {
        let mut progress: Vec<Option<mapping::ScanEvent>> = Vec::new();
        let mut i: usize = 0;
        while i < SCANNERS
            invariant
                i <= SCANNERS,
                progress.len() == i,
                forall|j: int| 0 <= j < i ==> (#[trigger] progress@[j]) is None,
            decreases SCANNERS - i,
        {
            progress.push(None);
            i = i + 1;
        }
        let r = Pending { findings: Vec::new(), progress, count: 0 };
        proof {
            assert forall|id: ScannerId| 0 <= #[trigger] scanner_place(id) < SCANNERS by {}
            assert(r@.findings =~= seq![]);
            assert(r@.progress =~= Map::<ScannerId, EventRecord>::empty());
        }
        r
    }

    /// A finding has come.
    pub fn push_finding(&mut self, scanner: ScannerId, gen: u64, f: mapping::Finding)
        requires
            old(self).wf(),
            old(self).count < usize::MAX,
        ensures
            final(self).wf(),
            final(self)@ == with_pending_finding(old(self)@, scanner, gen, f@),
    {
        let ghost was = self@;
        let ghost items = self.findings@;
        let ghost fv = f@;
        let n = self.findings.len();
        let joins = n > 0 && self.findings[n - 1].scanner == scanner && self.findings[n - 1].gen
            == gen;
        assert(was.findings.len() == n);
        if joins {
            assert(was.findings.last() == items[n - 1].deep_view());
            let ghost before = items[n - 1].findings.deep_view();
            self.findings[n - 1].findings.push(f);
            proof {
                let now = self.findings@[n - 1];
                assert(now.findings.deep_view() =~= before.push(fv));
                assert(now.deep_view() =~= (BatchView {
                    findings: was.findings.last().findings.push(fv),
                    ..was.findings.last()
                }));
                assert(self.findings.deep_view() =~= batched(was.findings, scanner, gen, fv));
            }
        } else {
            if n > 0 {
                assert(was.findings.last() == items[n - 1].deep_view());
            }
            let mut findings: Vec<mapping::Finding> = Vec::new();
            findings.push(f);
            assert(findings.deep_view() =~= seq![fv]);
            self.findings.push(Batch { scanner, gen, findings });
            assert(self.findings.deep_view() =~= batched(was.findings, scanner, gen, fv));
        }
        self.count = self.count + 1;
        assert(self@.progress =~= was.progress);
    }

    /// There is word on the progress of a section; it takes the place of what was said before.
    pub fn set_progress(&mut self, scanner: ScannerId, ev: mapping::ScanEvent)
        requires
            old(self).wf(),
        ensures
            final(self).wf(),
            final(self)@ == (PendingView {
                progress: old(self)@.progress.insert(scanner, ev@),
                ..old(self)@
            }),
    {
        let ghost was = self@;
        let n = scanner.place();
        self.progress.set(n, Some(ev));
        proof {
            assert forall|x: ScannerId| x != scanner implies scanner_place(x) != scanner_place(
                scanner,
            ) by {
                lemma_places_differ(x, scanner);
            }
            assert(self@.progress =~= was.progress.insert(scanner, ev@));
        }
    }

    /// Tell everything that waits.
    pub fn drain(&mut self) -> (r: Vec<mapping::ScanEvent>)
        requires
            old(self).wf(),
        ensures
            final(self).wf(),
            final(self)@ == nothing_pending(),
            r.deep_view() == drained(old(self)@),
    {
        let ghost was = self@;
        let fresh = Pending::new();
        let mut old_state = fresh;
        std::mem::swap(&mut old_state, self);
        let Pending { findings, progress, count: _ } = old_state;
        let ghost bs = findings.deep_view();
        let ghost first = Seq::new(bs.len(), |i: int| batch_event(bs[i]));
        let mut out: Vec<mapping::ScanEvent> = Vec::new();
        let mut rest = findings;
        assert(rest.deep_view() =~= bs.skip(0));
        while rest.len() > 0
            invariant
                out.len() + rest.len() == bs.len(),
                rest.deep_view() == bs.skip(out.len() as int),
                first == Seq::new(bs.len(), |i: int| batch_event(bs[i])),
                out.deep_view() =~= first.take(out.len() as int),
            decreases rest.len(),
        {
            let ghost n = out.len() as int;
            let ghost before = rest.deep_view();
            let ghost items = rest@;
            let ghost done = out.deep_view();
            let b = rest.remove(0);
            proof {
                assert(b.deep_view() == before[0]);
                assert(before[0] == bs[n]);
                assert(rest@ == items.remove(0));
                assert(rest.deep_view() =~= before.skip(1));
                assert(rest.deep_view() =~= bs.skip(n + 1));
            }
            let ev = mapping::ScanEvent::Findings {
                section: SectionId::from(b.scanner),
                gen: b.gen,
                findings: b.findings,
            };
            assert(ev@ == first[n]);
            out.push(ev);
            assert(out.deep_view() =~= done.push(ev@));
        }
        assert(out.deep_view() =~= first);
        let every = ScannerId::all();
        let ghost pick = progress_event(was);
        let mut slots = progress;
        let ghost ps = slots@;
        let mut i: usize = 0;
        proof {
            lemma_filter_map_start(all_scanners(), pick);
            assert(out.deep_view() =~= first + all_scanners().take(0).filter_map(pick));
        }
        while i < every.len()
            invariant
                i <= every.len(),
                every@ == all_scanners(),
                every.len() == SCANNERS,
                slots.len() == SCANNERS,
                ps.len() == SCANNERS,
                pick == progress_event(was),
                forall|id: ScannerId| #[trigger]
                    was.progress.contains_key(id) <==> ps[scanner_place(id)] is Some,
                forall|id: ScannerId| #[trigger]
                    was.progress.contains_key(id) ==> was.progress[id] == ps[scanner_place(id)]->0@,
                forall|j: int| i <= j < SCANNERS ==> slots@[j] == ps[j],
                out.deep_view() == first + all_scanners().take(i as int).filter_map(pick),
            decreases every.len() - i,
        {
            let ghost done = out.deep_view();
            let id = every[i];
            proof {
                all_scanners().lemma_filter_map_take_succ(pick, i as int);
                assert(scanner_place(id) == i);
                assert(was.progress.contains_key(id) <==> ps[scanner_place(id)] is Some);
            }
            let mut slot: Option<mapping::ScanEvent> = None;
            std::mem::swap(&mut slot, &mut slots[i]);
            if let Some(ev) = slot {
                out.push(ev);
                assert(out.deep_view() =~= done.push(ev@));
            }
            assert(out.deep_view() =~= first + all_scanners().take(i + 1).filter_map(pick));
            i = i + 1;
        }
        assert(all_scanners().take(i as int) =~= all_scanners());
        out
    }
}

/// What the latest finished scans have shown of the disk.
#[derive(Debug)]
pub struct Store {
    /// The walked trees, one for each root.
    pub dir_trees: Vec<DirTree>,
    pub projects: Option<FootprintSet>,
    pub app_storage: Option<FootprintSet>,
}

/// The first row of an owner.
pub open spec fn row_of(f: Seq<FootprintView>, key: Seq<char>) -> Option<FootprintView>
    decreases f.len(),
{
    if f.len() == 0 {
        None
    } else if f[0].owner.key == key {
        Some(f[0])
    } else {
        row_of(f.skip(1), key)
    }
}

/// The trees without those of this root.
pub open spec fn other_root(root: Seq<Seq<char>>) -> spec_fn(TreeView) -> bool {
    |t: TreeView| t.root != root
}

/// The trees with a further one, which takes the place of one of the same root.
pub open spec fn with_tree(trees: Seq<TreeView>, t: TreeView) -> Seq<TreeView> {
    trees.filter(other_root(t.root)).push(t)
}

/// What an optional set holds.
pub open spec fn opt_set(s: Option<FootprintSet>) -> Option<SetView> {
    match s {
        Some(x) => Some(x@),
        None => None,
    }
}

impl Store {
    /// Nothing is known yet.
    pub fn new() -> (r: Store)
        ensures
            r.dir_trees.deep_view() == Seq::<TreeView>::empty(),
            r.projects is None,
            r.app_storage is None,
    {
        let r = Store { dir_trees: Vec::new(), projects: None, app_storage: None };
        assert(r.dir_trees.deep_view() =~= seq![]);
        r
    }

    /// Keep a tree, in place of one of the same root.
    pub fn put_tree(&mut self, tree: DirTree)
        ensures
            final(self).dir_trees.deep_view() == with_tree(
                old(self).dir_trees.deep_view(),
                tree@,
            ),
            final(self).projects == old(self).projects,
            final(self).app_storage == old(self).app_storage,
    {
        let ghost all = self.dir_trees.deep_view();
        let ghost keep = other_root(tree@.root);
        let mut kept: Vec<DirTree> = Vec::new();
        let mut rest: Vec<DirTree> = Vec::new();
        std::mem::swap(&mut rest, &mut self.dir_trees);
        let total: usize = rest.len();
        let mut i: usize = 0;
        assert(all.len() == total);
        proof {
            assert(all.take(0) =~= seq![]);
            reveal(Seq::filter);
            assert(kept.deep_view() =~= all.take(0).filter(keep));
            assert(rest.deep_view() =~= all.skip(0));
        }
        while rest.len() > 0
            invariant
                i + rest.len() == all.len(),
                all.len() == total,
                keep == other_root(tree@.root),
                rest.deep_view() == all.skip(i as int),
                kept.deep_view() == all.take(i as int).filter(keep),
            decreases rest.len(),
        {
            let ghost before = rest.deep_view();
            let ghost items = rest@;
            let ghost was = kept.deep_view();
            let t = rest.remove(0);
            proof {
                reveal(Seq::filter);
                assert(t@ == before[0]);
                assert(before[0] == all[i as int]);
                assert(rest@ == items.remove(0));
                assert(rest.deep_view() =~= before.skip(1));
                assert(rest.deep_view() =~= all.skip(i + 1));
                assert(all.take(i + 1).drop_last() =~= all.take(i as int));
                assert(all.take(i + 1).last() == t@);
            }
            if !t.root.same(&tree.root) {
                kept.push(t);
                assert(kept.deep_view() =~= was.push(t@));
            }
            assert(kept.deep_view() =~= all.take(i + 1).filter(keep));
            i = i + 1;
        }
        assert(all.take(i as int) =~= all);
        let ghost before = kept.deep_view();
        kept.push(tree);
        assert(kept.deep_view() =~= before.push(tree@));
        self.dir_trees = kept;
    }

    /// Keep the set of an axis, in place of what was there.
    pub fn put_set(&mut self, set: FootprintSet)
        ensures
            final(self).dir_trees == old(self).dir_trees,
            set.axis == Axis::Projects ==> opt_set(final(self).projects) == Some(set@)
                && final(self).app_storage == old(self).app_storage,
            set.axis == Axis::AppStorage ==> opt_set(final(self).app_storage) == Some(set@)
                && final(self).projects == old(self).projects,
    {
        match set.axis {
            Axis::Projects => {
                self.projects = Some(set);
            },
            Axis::AppStorage => {
                self.app_storage = Some(set);
            },
        }
    }

    /// The rows of an axis; none where it has no set.
    pub open spec fn rows(self, axis: Axis) -> Seq<FootprintView> {
        let set = match axis {
            Axis::Projects => self.projects,
            Axis::AppStorage => self.app_storage,
        };
        match set {
            Some(set) => set@.footprints,
            None => seq![],
        }
    }

    /// The set of an axis.
    pub fn set_of(&self, axis: Axis) -> (r: Option<&FootprintSet>)
        ensures
            axis == Axis::Projects ==> r == (match self.projects {
                Some(s) => Some(&s),
                None => None,
            }),
            axis == Axis::AppStorage ==> r == (match self.app_storage {
                Some(s) => Some(&s),
                None => None,
            }),
    {
        match axis {
            Axis::Projects => match &self.projects {
                Some(s) => Some(s),
                None => None,
            },
            Axis::AppStorage => match &self.app_storage {
                Some(s) => Some(s),
                None => None,
            },
        }
    }

    /// The row of an owner on an axis; nothing where the axis has no set or the owner no row.
    pub fn footprint(&self, axis: Axis, key: &str) -> (r: Option<&Footprint>)
        ensures
            (match r {
                Some(f) => Some(f@),
                None => None,
            }) == row_of(self.rows(axis), key@),
    {
        let set = match self.set_of(axis) {
            Some(set) => set,
            None => {
                return None;
            },
        };
        let ghost all = self.rows(axis);
        assert(all == set@.footprints);
        let mut i: usize = 0;
        assert(all.skip(0) =~= all);
        while i < set.footprints.len()
            invariant
                i <= set.footprints.len(),
                all == set.footprints.deep_view(),
                all == self.rows(axis),
                row_of(all, key@) == row_of(all.skip(i as int), key@),
            decreases set.footprints.len() - i,
        {
            assert(all[i as int] == set.footprints@[i as int]@);
            assert(all.skip(i as int)[0] == all[i as int]);
            assert(all.skip(i as int).skip(1) =~= all.skip(i + 1));
            if same(set.footprints[i].owner.key.as_str(), key) {
                return Some(&set.footprints[i]);
            }
            i = i + 1;
        }
        None
    }
}

/// What is told at once when an event has been taken in.
pub open spec fn told(p: PendingView, ev: ScanEvent) -> Seq<EventRecord> {
    match ev {
        ScanEvent::Started { scanner, gen } => drained(p).push(
            EventRecord::SectionStarted { section: section_of(scanner), gen },
        ),
        ScanEvent::Progress { .. } => seq![],
        ScanEvent::Finding { scanner, gen, finding } => {
            let q = with_pending_finding(p, scanner, gen, finding_record(finding@));
            if q.count >= FLUSH_THRESHOLD {
                drained(q)
            } else {
                seq![]
            }
        },
        ScanEvent::Finished { scanner, gen, duration_ms } => drained(p).push(
            EventRecord::SectionFinished { section: section_of(scanner), gen, duration_ms },
        ),
        ScanEvent::Failed { scanner, gen, error } => drained(p).push(
            EventRecord::SectionFailed { section: section_of(scanner), gen, error: error@ },
        ),
        ScanEvent::DirTree { .. } => seq![],
        ScanEvent::Footprints { .. } => seq![],
    }
}

/// What waits when an event has been taken in.
pub open spec fn waiting_after(p: PendingView, ev: ScanEvent) -> PendingView {
    match ev {
        ScanEvent::Started { .. } => nothing_pending(),
        ScanEvent::Progress { scanner, gen, msg, done, total } => PendingView {
            progress: p.progress.insert(
                scanner,
                EventRecord::Progress {
                    section: section_of(scanner),
                    gen,
                    msg: msg@,
                    done,
                    total,
                },
            ),
            ..p
        },
        ScanEvent::Finding { scanner, gen, finding } => {
            let q = with_pending_finding(p, scanner, gen, finding_record(finding@));
            if q.count >= FLUSH_THRESHOLD {
                nothing_pending()
            } else {
                q
            }
        },
        ScanEvent::Finished { .. } => nothing_pending(),
        ScanEvent::Failed { .. } => nothing_pending(),
        ScanEvent::DirTree { .. } => p,
        ScanEvent::Footprints { .. } => p,
    }
}

/// What is to be done when an event has come in.
pub struct Step {
    /// What is told now.
    pub told: Vec<mapping::ScanEvent>,
    /// Whether a scan has ended, so that it may be time to look at the findings together.
    pub ended: bool,
}

/// Take in an event: update what is known, and say what is told now. An event that does not count
/// changes nothing. Findings wait until there are many, or until a section begins or ends.
pub fn take_in(session: &mut Session, pending: &mut Pending, store: &mut Store, ev: ScanEvent) -> (r: Step)
    requires
        old(session).wf(),
        old(pending).wf(),
        old(pending).count < FLUSH_THRESHOLD,
    ensures
        final(session).wf(),
        final(pending).wf(),
        final(pending).count < FLUSH_THRESHOLD,
        final(session)@ == applied(old(session)@, ev),
        is_expected(old(session)@, ev) ==> {
            &&& r.told.deep_view() == told(old(pending)@, ev)
            &&& final(pending)@ == waiting_after(old(pending)@, ev)
            &&& r.ended == (ev is Finished || ev is Failed)
            &&& final(store).dir_trees.deep_view() == (match ev {
                ScanEvent::DirTree { tree, .. } => with_tree(
                    old(store).dir_trees.deep_view(),
                    tree@,
                ),
                _ => old(store).dir_trees.deep_view(),
            })
            &&& opt_set(final(store).projects) == (match ev {
                ScanEvent::Footprints { set, .. } => if set.axis == Axis::Projects {
                    Some(set@)
                } else {
                    opt_set(old(store).projects)
                },
                _ => opt_set(old(store).projects),
            })
            &&& opt_set(final(store).app_storage) == (match ev {
                ScanEvent::Footprints { set, .. } => if set.axis == Axis::AppStorage {
                    Some(set@)
                } else {
                    opt_set(old(store).app_storage)
                },
                _ => opt_set(old(store).app_storage),
            })
        },
        !is_expected(old(session)@, ev) ==> {
            &&& r.told.deep_view() == Seq::<EventRecord>::empty()
            &&& !r.ended
            &&& final(pending)@ == old(pending)@
            &&& *final(store) == *old(store)
        },
{
    let ghost p0 = pending@;
    let accepted = session.apply(&ev);
    let mut out: Vec<mapping::ScanEvent> = Vec::new();
    assert(out.deep_view() =~= seq![]);
    if !accepted {
        return Step { told: out, ended: false };
    }
    let mut ended = false;
    match ev {
        ScanEvent::Started { scanner, gen } => {
            out = pending.drain();
            let ghost was = out.deep_view();
            let e = mapping::ScanEvent::SectionStarted { section: SectionId::from(scanner), gen };
            out.push(e);
            assert(out.deep_view() =~= was.push(e@));
        },
        ScanEvent::Progress { scanner, gen, msg, done, total } => {
            pending.set_progress(
                scanner,
                mapping::ScanEvent::Progress {
                    section: SectionId::from(scanner),
                    gen,
                    msg,
                    done,
                    total,
                },
            );
        },
        ScanEvent::Finding { scanner, gen, finding } => {
            pending.push_finding(scanner, gen, mapping::Finding::from(&finding));
            if pending.count >= FLUSH_THRESHOLD {
                out = pending.drain();
            }
        },
        ScanEvent::Finished { scanner, gen, duration_ms } => {
            out = pending.drain();
            let ghost was = out.deep_view();
            let e = mapping::ScanEvent::SectionFinished {
                section: SectionId::from(scanner),
                gen,
                duration_ms,
            };
            out.push(e);
            assert(out.deep_view() =~= was.push(e@));
            ended = true;
        },
        ScanEvent::Failed { scanner, gen, error } => {
            out = pending.drain();
            let ghost was = out.deep_view();
            let e = mapping::ScanEvent::SectionFailed {
                section: SectionId::from(scanner),
                gen,
                error,
            };
            out.push(e);
            assert(out.deep_view() =~= was.push(e@));
            ended = true;
        },
        ScanEvent::DirTree { tree, .. } => {
            store.put_tree(tree);
        },
        ScanEvent::Footprints { set, .. } => {
            store.put_set(set);
        },
    }
    Step { told: out, ended }
}

/// An event of a scan that does not count for its section changes nothing.
pub proof fn law_superseded_event_changes_nothing(s: SessionView, ev: ScanEvent)
    requires
        !is_expected(s, ev),
    ensures
        applied(s, ev) == s,
{
}

/// When a scan begins, events of any other scan of its sections no longer count.
pub proof fn law_new_scan_supersedes_old_ones(
    s: SessionView,
    gen: u64,
    ids: Seq<ScannerId>,
    ev: ScanEvent,
)
    requires
        ids.contains(ev.spec_scanner()),
    ensures
        is_expected(begun(s, gen, ids), ev) <==> ev.spec_generation() == gen,
    decreases ids.len(),
{
    if ids.len() > 0 {
        let front = ids.drop_last();
        let id = ev.spec_scanner();
        if ids.last() != id {
            let i = choose|i: int| 0 <= i < ids.len() && ids[i] == id;
            assert(front[i] == id);
            law_new_scan_supersedes_old_ones(s, gen, front, ev);
        }
    }
}

} // verus!
