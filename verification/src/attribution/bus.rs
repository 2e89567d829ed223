//! The meeting point of the scanners: each section's latest valid result.
//!
//! A section is registered before it scans. What it delivers is gathered, and published when it
//! finishes; a scan that was cancelled, has failed or was overtaken by a newer one publishes
//! nothing, and what was published before stays.

use vstd::prelude::*;

use crate::scan::{
    copy_findings, copy_trees, scanner_place, DirTree, Finding, FindingView, ScanEvent, ScannerId,
    TreeView, SCANNERS,
};

verus! {

/// What one finished scan of a section has delivered.
#[derive(Debug)]
pub struct Snapshot {
    pub gen: u64,
    pub findings: Vec<Finding>,
    pub dir_trees: Vec<DirTree>,
}

/// What one finished scan of a section has delivered, as a value.
#[verifier::ext_equal]
pub struct SnapshotView {
    pub gen: u64,
    pub findings: Seq<FindingView>,
    pub dir_trees: Seq<TreeView>,
}

impl View for Snapshot {
    type V = SnapshotView;

    open spec fn view(&self) -> SnapshotView {
        SnapshotView {
            gen: self.gen,
            findings: self.findings.deep_view(),
            dir_trees: self.dir_trees.deep_view(),
        }
    }
}

impl DeepView for Snapshot {
    type V = SnapshotView;

    open spec fn deep_view(&self) -> SnapshotView {
        self@
    }
}

impl Snapshot {
    /// The same snapshot once more.
    pub fn copy(&self) -> (r: Snapshot)
        ensures
            r@ == self@,
    {
        Snapshot {
            gen: self.gen,
            findings: copy_findings(&self.findings),
            dir_trees: copy_trees(&self.dir_trees),
        }
    }
}

/// What is known of a section.
#[derive(Debug)]
pub struct SectionState {
    /// The scan that was registered last.
    pub gen: u64,
    /// Whether that scan has ended.
    pub terminal: bool,
    pub findings: Vec<Finding>,
    pub trees: Vec<DirTree>,
    /// What was published last, by that scan or an earlier one.
    pub last: Option<Snapshot>,
}

/// What is known of a section, as a value.
#[verifier::ext_equal]
pub struct SectionView {
    pub gen: u64,
    pub terminal: bool,
    pub findings: Seq<FindingView>,
    pub trees: Seq<TreeView>,
    pub last: Option<SnapshotView>,
}

impl View for SectionState {
    type V = SectionView;

    open spec fn view(&self) -> SectionView {
        SectionView {
            gen: self.gen,
            terminal: self.terminal,
            findings: self.findings.deep_view(),
            trees: self.trees.deep_view(),
            last: self.last.deep_view(),
        }
    }
}

/// All sections that were ever registered.
#[derive(Debug)]
pub struct ScanBus {
    /// One place for each section.
    pub sections: Vec<Option<SectionState>>,
}

impl View for ScanBus {
    type V = Map<ScannerId, SectionView>;

    open spec fn view(&self) -> Map<ScannerId, SectionView> {
        Map::new(
            |id: ScannerId| self.sections@[scanner_place(id)] is Some,
            |id: ScannerId| self.sections@[scanner_place(id)]->0@,
        )
    }
}

/// A section for which a scan has just been registered. What was published before stays.
pub open spec fn begun_section(bus: Map<ScannerId, SectionView>, gen: u64, id: ScannerId) -> SectionView {
    SectionView {
        gen,
        terminal: false,
        findings: seq![],
        trees: seq![],
        last: if bus.contains_key(id) {
            bus[id].last
        } else {
            None
        },
    }
}

/// The sections when a scan of `ids` has been registered.
pub open spec fn begun(bus: Map<ScannerId, SectionView>, gen: u64, ids: Seq<ScannerId>) -> Map<
    ScannerId,
    SectionView,
>
    decreases ids.len(),
{
    if ids.len() == 0 {
        bus
    } else {
        let before = begun(bus, gen, ids.drop_last());
        before.insert(ids.last(), begun_section(before, gen, ids.last()))
    }
}

/// Whether an event ends a scan.
pub open spec fn ends_scan(ev: ScanEvent) -> bool {
    ev is Finished || ev is Failed
}

/// A section when an event of its scan has come in; `cancelled` says whether the scan has been
/// cancelled.
pub open spec fn observed_section(s: SectionView, ev: ScanEvent, cancelled: bool) -> SectionView {
    match ev {
        ScanEvent::Finding { finding, .. } => SectionView {
            findings: s.findings.push(finding@),
            ..s
        },
        ScanEvent::DirTree { tree, .. } => SectionView { trees: s.trees.push(tree@), ..s },
        ScanEvent::Finished { .. } => SectionView {
            terminal: true,
            findings: seq![],
            trees: seq![],
            last: if cancelled {
                s.last
            } else {
                Some(SnapshotView { gen: s.gen, findings: s.findings, dir_trees: s.trees })
            },
            ..s
        },
        ScanEvent::Failed { .. } => SectionView {
            terminal: true,
            findings: seq![],
            trees: seq![],
            ..s
        },
        _ => s,
    }
}

/// Whether an event belongs to the scan that is registered for its section.
pub open spec fn concerns(bus: Map<ScannerId, SectionView>, ev: ScanEvent) -> bool {
    bus.contains_key(ev.spec_scanner()) && bus[ev.spec_scanner()].gen == ev.spec_generation()
}

/// The sections when an event has come in.
pub open spec fn observed(bus: Map<ScannerId, SectionView>, ev: ScanEvent, cancelled: bool) -> Map<
    ScannerId,
    SectionView,
> {
    if concerns(bus, ev) {
        bus.insert(
            ev.spec_scanner(),
            observed_section(bus[ev.spec_scanner()], ev, cancelled),
        )
    } else {
        bus
    }
}

/// The sections when everything has been cancelled.
pub open spec fn stopped(bus: Map<ScannerId, SectionView>) -> Map<ScannerId, SectionView> {
    Map::new(
        |id: ScannerId| bus.contains_key(id),
        |id: ScannerId|
            SectionView { terminal: true, findings: seq![], trees: seq![], ..bus[id] },
    )
}

/// Whether a section has nothing to wait for in the scan `gen`.
pub open spec fn settled(bus: Map<ScannerId, SectionView>, gen: u64, id: ScannerId) -> bool {
    bus.contains_key(id) ==> bus[id].gen != gen || bus[id].terminal
}

/// Whether none of the sections has anything to wait for.
pub open spec fn all_settled(bus: Map<ScannerId, SectionView>, gen: u64, ids: Seq<ScannerId>) -> bool {
    forall|i: int| 0 <= i < ids.len() ==> settled(bus, gen, #[trigger] ids[i])
}

/// What a section has published last, with the section.
pub open spec fn published(bus: Map<ScannerId, SectionView>) -> spec_fn(ScannerId) -> Option<
    (ScannerId, SnapshotView),
> {
    |id: ScannerId|
        if bus.contains_key(id) && bus[id].last is Some {
            Some((id, bus[id].last->0))
        } else {
            None
        }
}

/// Two sections have different places.
proof fn lemma_places_differ(a: ScannerId, b: ScannerId)
    requires
        a != b,
    ensures
        scanner_place(a) != scanner_place(b),
{
}

impl ScanBus {
    /// Each section has its place.
    pub open spec fn wf(self) -> bool {
        self.sections@.len() == SCANNERS
    }

    /// Nothing is registered.
    pub fn new() -> (r: ScanBus)
        ensures
            r.wf(),
            r@ == Map::<ScannerId, SectionView>::empty(),
    {
        let mut sections: Vec<Option<SectionState>> = Vec::new();
        let mut i: usize = 0;
        while i < SCANNERS
            invariant
                i <= SCANNERS,
                sections.len() == i,
                forall|j: int| 0 <= j < i ==> (#[trigger] sections@[j]) is None,
            decreases SCANNERS - i,
        {
            sections.push(None);
            i = i + 1;
        }
        let r = ScanBus { sections };
        assert(r@ =~= Map::<ScannerId, SectionView>::empty());
        r
    }

    /// A bus on which nothing is ever registered: nobody waits on it, and it has nothing to give.
    pub fn detached() -> (r: ScanBus)
        ensures
            r.wf(),
            r@ == Map::<ScannerId, SectionView>::empty(),
    {
        ScanBus::new()
    }

    fn begin_one(&mut self, gen: u64, id: ScannerId)
        requires
            old(self).wf(),
        ensures
            final(self).wf(),
            final(self)@ == old(self)@.insert(id, begun_section(old(self)@, gen, id)),
    {
        let ghost was = self@;
        let n = id.place();
        let mut old_state: Option<SectionState> = None;
        std::mem::swap(&mut old_state, &mut self.sections[n]);
        let last = match old_state {
            Some(s) => s.last,
            None => None,
        };
        let s = SectionState {
            gen,
            terminal: false,
            findings: Vec::new(),
            trees: Vec::new(),
            last,
        };
        assert(s@ =~= begun_section(was, gen, id));
        self.sections.set(n, Some(s));
        assert(self@ =~= was.insert(id, s@)) by {
            assert forall|x: ScannerId| x != id implies scanner_place(x) != scanner_place(id) by {
                lemma_places_differ(x, id);
            }
        }
    }

    /// Register a scan of the sections, before any of them scans. What they have published before
    /// stays.
    pub fn begin(&mut self, gen: u64, ids: &[ScannerId])
        requires
            old(self).wf(),
        ensures
            final(self).wf(),
            final(self)@ == begun(old(self)@, gen, ids@),
    {
        let ghost was = self@;
        let mut i: usize = 0;
        assert(begun(was, gen, ids@.take(0)) == was);
        while i < ids.len()
            invariant
                i <= ids.len(),
                self.wf(),
                self@ == begun(was, gen, ids@.take(i as int)),
            decreases ids.len() - i,
        {
            proof {
                assert(ids@.take(i + 1).drop_last() =~= ids@.take(i as int));
                assert(ids@.take(i + 1).last() == ids@[i as int]);
            }
            self.begin_one(gen, ids[i]);
            i = i + 1;
        }
        assert(ids@.take(i as int) =~= ids@);
    }

    /// Take in an event of a scan; `cancelled` says whether its section's scan has been cancelled.
    /// Findings and trees are gathered; the end of a scan publishes them, unless it was cancelled
    /// or has failed. An event of a scan that is not registered changes nothing. The result says
    /// whether those who wait have to look again.
    pub fn observe(&mut self, ev: &ScanEvent, cancelled: bool) -> (wake: bool)
        requires
            old(self).wf(),
        ensures
            final(self).wf(),
            final(self)@ == observed(old(self)@, *ev, cancelled),
            wake == (concerns(old(self)@, *ev) && ends_scan(*ev)),
    {
        let ghost was = self@;
        let id = ev.scanner();
        let gen = ev.generation();
        let n = id.place();
        let mut slot: Option<SectionState> = None;
        std::mem::swap(&mut slot, &mut self.sections[n]);
        let mut s = match slot {
            Some(s) => s,
            None => {
                assert(self@ =~= was);
                return false;
            },
        };
        let ghost before = s@;
        let mut wake = false;
        if gen == s.gen {
            match ev {
                ScanEvent::Finding { finding, .. } => {
                    let f = finding.copy();
                    s.findings.push(f);
                    assert(s.findings.deep_view() =~= before.findings.push(f@));
                },
                ScanEvent::DirTree { tree, .. } => {
                    let t = tree.copy();
                    s.trees.push(t);
                    assert(s.trees.deep_view() =~= before.trees.push(t@));
                },
                ScanEvent::Finished { .. } => {
                    let mut findings: Vec<Finding> = Vec::new();
                    let mut trees: Vec<DirTree> = Vec::new();
                    std::mem::swap(&mut findings, &mut s.findings);
                    std::mem::swap(&mut trees, &mut s.trees);
                    if !cancelled {
                        s.last = Some(Snapshot { gen, findings, dir_trees: trees });
                    }
                    s.terminal = true;
                    wake = true;
                    assert(s.findings.deep_view() =~= seq![]);
                    assert(s.trees.deep_view() =~= seq![]);
                },
                ScanEvent::Failed { .. } => {
                    s.findings = Vec::new();
                    s.trees = Vec::new();
                    s.terminal = true;
                    wake = true;
                    assert(s.findings.deep_view() =~= seq![]);
                    assert(s.trees.deep_view() =~= seq![]);
                },
                ScanEvent::Started { .. } => {},
                ScanEvent::Progress { .. } => {},
                ScanEvent::Footprints { .. } => {},
            }
            assert(s@ =~= observed_section(before, *ev, cancelled));
        }
        let ghost now = s@;
        self.sections.set(n, Some(s));
        proof {
            assert forall|x: ScannerId| x != id implies scanner_place(x) != scanner_place(id) by {
                lemma_places_differ(x, id);
            }
            assert(self@ =~= was.insert(id, now));
            if before.gen != gen {
                assert(was.insert(id, now) =~= was);
            }
        }
        wake
    }

    /// End every scan without publishing anything, so that nobody waits any longer.
    pub fn cancel_all(&mut self)
        requires
            old(self).wf(),
        ensures
            final(self).wf(),
            final(self)@ == stopped(old(self)@),
    {
        let ghost was = self@;
        let ghost old_sections = self.sections@;
        let mut i: usize = 0;
        while i < SCANNERS
            invariant
                i <= SCANNERS,
                self.wf(),
                old_sections.len() == SCANNERS,
                forall|j: int| i <= j < SCANNERS ==> self.sections@[j] == old_sections[j],
                forall|j: int|
                    0 <= j < i ==> ((#[trigger] self.sections@[j]) is Some <==> old_sections[j]
                        is Some),
                forall|j: int|
                    0 <= j < i && old_sections[j] is Some ==> (#[trigger] self.sections@[j])->0@
                        == (SectionView {
                        terminal: true,
                        findings: seq![],
                        trees: seq![],
                        ..old_sections[j]->0@
                    }),
            decreases SCANNERS - i,
        {
            let ghost before = self.sections@;
            let mut slot: Option<SectionState> = None;
            std::mem::swap(&mut slot, &mut self.sections[i]);
            let next = match slot {
                Some(s) => {
                    let r = SectionState {
                        gen: s.gen,
                        terminal: true,
                        findings: Vec::new(),
                        trees: Vec::new(),
                        last: s.last,
                    };
                    assert(r@ =~= (SectionView {
                        terminal: true,
                        findings: seq![],
                        trees: seq![],
                        ..old_sections[i as int]->0@
                    }));
                    Some(r)
                },
                None => None,
            };
            self.sections.set(i, next);
            assert(self.sections@ =~= before.update(i as int, next));
            i = i + 1;
        }
        assert(self@ =~= stopped(was)) by {
            assert forall|id: ScannerId| 0 <= #[trigger] scanner_place(id) < SCANNERS by {}
            assert forall|id: ScannerId| self@.contains_key(id) <==> stopped(was).contains_key(
                id,
            ) by {
                let j = scanner_place(id);
                assert(self.sections@[j] is Some <==> old_sections[j] is Some);
            }
            assert forall|id: ScannerId| #[trigger] self@.contains_key(id) implies self@[id]
                == stopped(was)[id] by {
                let j = scanner_place(id);
                assert(self.sections@[j] is Some);
            }
        }
    }

    /// Whether none of the sections has anything to wait for in the scan `gen`: a section is settled
    /// when it is not registered for that scan, or the scan has ended.
    pub fn ready(&self, ids: &[ScannerId], gen: u64) -> (r: bool)
        requires
            self.wf(),
        ensures
            r == all_settled(self@, gen, ids@),
    {
        let mut i: usize = 0;
        while i < ids.len()
            invariant
                i <= ids.len(),
                self.wf(),
                forall|j: int| 0 <= j < i ==> settled(self@, gen, #[trigger] ids@[j]),
            decreases ids.len() - i,
        {
            let n = ids[i].place();
            if let Some(s) = &self.sections[n] {
                if s.gen == gen && !s.terminal {
                    assert(!settled(self@, gen, ids@[i as int]));
                    return false;
                }
            }
            i = i + 1;
        }
        true
    }

    /// What the sections have published last; a section that has published nothing is left out.
    pub fn snapshots(&self, ids: &[ScannerId]) -> (r: Vec<(ScannerId, Snapshot)>)
        requires
            self.wf(),
        ensures
            r.deep_view() == ids@.filter_map(published(self@)),
    {
        let ghost pick = published(self@);
        let mut out: Vec<(ScannerId, Snapshot)> = Vec::new();
        let mut i: usize = 0;
        proof {
            crate::seqs::lemma_filter_map_start(ids@, pick);
            assert(out.deep_view() =~= ids@.take(0).filter_map(pick));
        }
        while i < ids.len()
            invariant
                i <= ids.len(),
                self.wf(),
                pick == published(self@),
                out.deep_view() == ids@.take(i as int).filter_map(pick),
            decreases ids.len() - i,
        {
            proof {
                ids@.lemma_filter_map_take_succ(pick, i as int);
            }
            let ghost was = out.deep_view();
            let n = ids[i].place();
            if let Some(s) = &self.sections[n] {
                if let Some(last) = &s.last {
                    let x = (ids[i], last.copy());
                    out.push(x);
                    assert(out.deep_view() =~= was.push((x.0, x.1@)));
                }
            }
            assert(out.deep_view() =~= ids@.take(i + 1).filter_map(pick));
            i = i + 1;
        }
        assert(ids@.take(i as int) =~= ids@);
        out
    }
}

/// The sections when events have come in, one behind the other, each with whether its scan had been
/// cancelled by then.
pub open spec fn observed_all(
    bus: Map<ScannerId, SectionView>,
    events: Seq<(ScanEvent, bool)>,
) -> Map<ScannerId, SectionView>
    decreases events.len(),
{
    if events.len() == 0 {
        bus
    } else {
        observed(
            observed_all(bus, events.drop_last()),
            events.last().0,
            events.last().1,
        )
    }
}

/// What a scan that was cancelled has delivered is not published: what was published before stays,
/// and those who wait need not wait any longer.
pub proof fn law_cancelled_scan_publishes_nothing(
    bus: Map<ScannerId, SectionView>,
    ev: ScanEvent,
)
    requires
        concerns(bus, ev),
        ends_scan(ev),
    ensures
        observed(bus, ev, true)[ev.spec_scanner()].last == bus[ev.spec_scanner()].last,
        settled(observed(bus, ev, true), ev.spec_generation(), ev.spec_scanner()),
{
}

/// What a scan that has failed has delivered is not published.
pub proof fn law_failed_scan_publishes_nothing(
    bus: Map<ScannerId, SectionView>,
    ev: ScanEvent,
    cancelled: bool,
)
    requires
        concerns(bus, ev),
        ev is Failed,
    ensures
        observed(bus, ev, cancelled)[ev.spec_scanner()].last == bus[ev.spec_scanner()].last,
        settled(observed(bus, ev, cancelled), ev.spec_generation(), ev.spec_scanner()),
{
}

/// An event of a scan that a newer one has overtaken, or of a section that is not registered,
/// changes nothing.
pub proof fn law_stale_event_changes_nothing(
    bus: Map<ScannerId, SectionView>,
    ev: ScanEvent,
    cancelled: bool,
)
    requires
        !concerns(bus, ev),
    ensures
        observed(bus, ev, cancelled) == bus,
{
}

/// An event changes no other section than its own.
pub proof fn law_event_concerns_one_section(
    bus: Map<ScannerId, SectionView>,
    ev: ScanEvent,
    cancelled: bool,
    other: ScannerId,
)
    requires
        other != ev.spec_scanner(),
    ensures
        observed(bus, ev, cancelled).contains_key(other) == bus.contains_key(other),
        bus.contains_key(other) ==> observed(bus, ev, cancelled)[other] == bus[other],
{
}

proof fn lemma_begun(bus: Map<ScannerId, SectionView>, gen: u64, ids: Seq<ScannerId>, id: ScannerId)
    ensures
        ids.contains(id) ==> begun(bus, gen, ids).contains_key(id) && begun(bus, gen, ids)[id]
            == begun_section(bus, gen, id),
        !ids.contains(id) ==> begun(bus, gen, ids).contains_key(id) == bus.contains_key(id)
            && begun(bus, gen, ids)[id] == bus[id],
    decreases ids.len(),
{
    if ids.len() > 0 {
        let front = ids.drop_last();
        lemma_begun(bus, gen, front, id);
        if ids.contains(id) {
            let i = choose|i: int| 0 <= i < ids.len() && ids[i] == id;
            if ids.last() != id {
                assert(front[i] == id);
            }
        } else {
            assert(ids[ids.len() - 1] == ids.last());
            if front.contains(id) {
                let i = choose|i: int| 0 <= i < front.len() && front[i] == id;
                assert(ids[i] == id);
            }
        }
    }
}

/// Registering a scan takes nothing away that was published, and from then on there is something to
/// wait for.
pub proof fn law_begin_keeps_what_was_published(
    bus: Map<ScannerId, SectionView>,
    gen: u64,
    ids: Seq<ScannerId>,
    id: ScannerId,
)
    ensures
        bus.contains_key(id) ==> begun(bus, gen, ids).contains_key(id) && begun(bus, gen, ids)[id].last
            == bus[id].last,
        ids.contains(id) ==> !settled(begun(bus, gen, ids), gen, id),
{
    lemma_begun(bus, gen, ids, id);
}

/// A section that was never registered holds up nobody, and has nothing to give.
pub proof fn law_unregistered_section_holds_up_nobody(
    bus: Map<ScannerId, SectionView>,
    gen: u64,
    id: ScannerId,
)
    requires
        !bus.contains_key(id),
    ensures
        settled(bus, gen, id),
        published(bus)(id) is None,
{
}

/// When everything has been cancelled nobody waits any longer, and what was published stays.
pub proof fn law_cancelling_everything_ends_every_wait(
    bus: Map<ScannerId, SectionView>,
    gen: u64,
    ids: Seq<ScannerId>,
)
    ensures
        all_settled(stopped(bus), gen, ids),
        forall|id: ScannerId| published(stopped(bus))(id) == #[trigger] published(bus)(id),
{
}

/// Whether none of the events ends this scan of the section.
pub open spec fn goes_on(id: ScannerId, gen: u64, events: Seq<(ScanEvent, bool)>) -> bool {
    forall|i: int|
        0 <= i < events.len() && (#[trigger] events[i]).0.spec_scanner() == id
            && events[i].0.spec_generation() == gen ==> !ends_scan(events[i].0)
}

/// The findings that the events of one scan of a section deliver.
pub open spec fn findings_of_scan(id: ScannerId, gen: u64, events: Seq<(ScanEvent, bool)>) -> Seq<
    FindingView,
> {
    events.filter_map(
        |e: (ScanEvent, bool)|
            match e.0 {
                ScanEvent::Finding { scanner, gen: g, finding } => if scanner == id && g == gen {
                    Some(finding@)
                } else {
                    None
                },
                _ => None,
            },
    )
}

proof fn lemma_gathered(
    bus: Map<ScannerId, SectionView>,
    gen: u64,
    id: ScannerId,
    events: Seq<(ScanEvent, bool)>,
)
    requires
        bus.contains_key(id),
        bus[id].gen == gen,
        bus[id].findings.len() == 0,
        goes_on(id, gen, events),
    ensures
        observed_all(bus, events).contains_key(id),
        observed_all(bus, events)[id].gen == gen,
        observed_all(bus, events)[id].last == bus[id].last,
        observed_all(bus, events)[id].findings == findings_of_scan(id, gen, events),
    decreases events.len(),
{
    let f = |e: (ScanEvent, bool)|
        match e.0 {
            ScanEvent::Finding { scanner, gen: g, finding } => if scanner == id && g == gen {
                Some(finding@)
            } else {
                None
            },
            _ => None,
        };
    if events.len() == 0 {
        crate::seqs::lemma_filter_map_start(events, f);
        assert(events.take(0) =~= events);
        assert(bus[id].findings =~= findings_of_scan(id, gen, events));
    } else {
        let front = events.drop_last();
        let n = events.len() - 1;
        assert forall|i: int|
            0 <= i < front.len() && (#[trigger] front[i]).0.spec_scanner() == id
                && front[i].0.spec_generation() == gen implies !ends_scan(front[i].0) by {
            assert(events[i] == front[i]);
        }
        lemma_gathered(bus, gen, id, front);
        events.lemma_filter_map_take_succ(f, n);
        assert(events.take(n) =~= front);
        assert(events.take(n + 1) =~= events);
        assert(events[n] == events.last());
        assert(observed_all(bus, events)[id].findings =~= findings_of_scan(id, gen, events));
    }
}

/// A scan that is registered, delivers and finishes without being cancelled publishes exactly the
/// findings that it has delivered, in the order in which it has delivered them, whatever comes in
/// from other sections or earlier scans meanwhile.
pub proof fn law_finished_scan_publishes_what_it_delivered(
    bus: Map<ScannerId, SectionView>,
    gen: u64,
    ids: Seq<ScannerId>,
    id: ScannerId,
    events: Seq<(ScanEvent, bool)>,
    end: ScanEvent,
)
    requires
        ids.contains(id),
        goes_on(id, gen, events),
        end is Finished,
        end.spec_scanner() == id,
        end.spec_generation() == gen,
    ensures
        ({
            let after = observed(observed_all(begun(bus, gen, ids), events), end, false);
            &&& after[id].last is Some
            &&& after[id].last->0.gen == gen
            &&& after[id].last->0.findings == findings_of_scan(id, gen, events)
            &&& settled(after, gen, id)
        }),
{
    lemma_begun(bus, gen, ids, id);
    lemma_gathered(begun(bus, gen, ids), gen, id, events);
}

} // verus!
