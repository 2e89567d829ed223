//! What holds of a session, and of what is chosen to run.

use vstd::prelude::*;

use crate::attribution::model::FootprintView;
use crate::ffi::engine::{
    all_selected, default_remedies, one_selected, primary, primary_destructive, primary_shell,
    selection_items, ErrorView,
};
use crate::ffi::mapping::Selection;
use crate::ffi::session::{
    all_terminal, all_upserted, applied, begun, begun_slots, correlation_due, finding_with_id,
    gathered, id_place, in_id_order, is_terminal, law_put_finding_is_found, other_root, row_of,
    waiting_after, with_finding, with_findings, with_tree, PendingView, SessionView, SlotView,
    StatusView,
};
use crate::scan::{all_scanners, FindingView, RemedyView, ScanEvent, ScannerId, TreeView};
use crate::seqs::first_some;

verus! {

/// Whether a finding of this number is listed.
pub open spec fn lists_id(s: Seq<FindingView>, id: u64) -> bool {
    exists|i: int| 0 <= i < s.len() && (#[trigger] s[i]).id.0 == id
}

proof fn lemma_begun_slots(slots: Map<ScannerId, SlotView>, gen: u64, ids: Seq<ScannerId>, id: ScannerId)
    requires
        slots.contains_key(id),
    ensures
        begun_slots(slots, gen, ids).contains_key(id),
        ids.contains(id) ==> begun_slots(slots, gen, ids)[id] == (SlotView {
            findings: seq![],
            expected_gen: Some(gen),
            status: StatusView::Scanning,
        }),
        !ids.contains(id) ==> begun_slots(slots, gen, ids)[id] == slots[id],
    decreases ids.len(),
{
    if ids.len() > 0 {
        let f = ids.drop_last();
        lemma_begun_slots(slots, gen, f, id);
        if ids.contains(id) && ids.last() != id {
            let i = choose|i: int| 0 <= i < ids.len() && ids[i] == id;
            assert(f[i] == id);
        }
        if f.contains(id) {
            let i = choose|i: int| 0 <= i < f.len() && f[i] == id;
            assert(ids[i] == id);
        }
        if ids.last() == id {
            assert(ids[ids.len() - 1] == id);
        }
    }
}

/// A scan that begins empties its sections and waits for its own events there; every other section
/// stays as it was.
pub proof fn law_a_scan_begins_in_its_sections_alone(
    s: SessionView,
    gen: u64,
    ids: Seq<ScannerId>,
    id: ScannerId,
)
    requires
        s.slots.contains_key(id),
    ensures
        ids.contains(id) ==> begun(s, gen, ids).slots[id].findings.len() == 0 && begun(
            s,
            gen,
            ids,
        ).slots[id].expected_gen == Some(gen) && begun(s, gen, ids).slots[id].status
            == StatusView::Scanning,
        !ids.contains(id) ==> begun(s, gen, ids).slots[id] == s.slots[id],
        begun(s, gen, ids).correlated == s.correlated,
        begun(s, gen, ids).correlated_gen == s.correlated_gen,
        (exists|i: int| 0 <= i < ids.len() && s.correlated.contains(#[trigger] ids[i]))
            ==> begun(s, gen, ids).full_scan_gen == gen,
{
    lemma_begun_slots(s.slots, gen, ids, id);
}

/// An event of the scan that counts for its section changes that section alone: a finding is listed
/// there from then on, whatever was listed under its number; the end of the scan keeps the findings.
pub proof fn law_an_event_changes_its_section(s: SessionView, ev: ScanEvent, id: ScannerId)
    requires
        s.slots.contains_key(ev.spec_scanner()),
        s.slots[ev.spec_scanner()].expected_gen == Some(ev.spec_generation()),
        in_id_order(s.slots[ev.spec_scanner()].findings),
    ensures
        id != ev.spec_scanner() ==> applied(s, ev).slots[id] == s.slots[id],
        ({
            let before = s.slots[ev.spec_scanner()];
            let after = applied(s, ev).slots[ev.spec_scanner()];
            &&& after.expected_gen == before.expected_gen
            &&& ev is Finished ==> after.status == StatusView::Done && after.findings
                == before.findings
            &&& ev is Failed ==> after.status is Failed && after.findings == before.findings
            &&& ev is Started ==> after.status == StatusView::Scanning && after.findings.len() == 0
            &&& ev is Finding ==> after.status == before.status && lists_id(
                after.findings,
                ev->Finding_finding@.id.0,
            ) && after.findings.contains(ev->Finding_finding@)
            &&& !(ev is Finished || ev is Failed || ev is Started || ev is Finding) ==> after == before
        }),
        applied(s, ev).correlated == s.correlated,
{
    if ev is Finding {
        let f = ev->Finding_finding@;
        let was = s.slots[ev.spec_scanner()].findings;
        lemma_with_finding(was, f, f.id.0);
        let now = with_finding(was, f);
        let i = choose|i: int| 0 <= i < now.len() && now[i] == f;
        assert(now[i].id.0 == f.id.0);
    }
}

proof fn lemma_id_place(s: Seq<FindingView>, id: u64)
    requires
        in_id_order(s),
    ensures
        0 <= id_place(s, id) <= s.len(),
        forall|i: int| 0 <= i < id_place(s, id) ==> (#[trigger] s[i]).id.0 < id,
        forall|i: int| id_place(s, id) <= i < s.len() ==> (#[trigger] s[i]).id.0 >= id,
    decreases s.len(),
{
    if s.len() > 0 {
        let f = s.drop_last();
        assert(in_id_order(f)) by {
            assert forall|i: int, j: int| 0 <= i < j < f.len() implies (#[trigger] f[i]).id.0 < (
            #[trigger] f[j]).id.0 by {
                assert(f[i] == s[i] && f[j] == s[j]);
            }
        }
        lemma_id_place(f, id);
        if s.last().id.0 < id {
            assert forall|i: int| 0 <= i < s.len() implies (#[trigger] s[i]).id.0 < id by {
                if i < s.len() - 1 {
                    assert(s[i].id.0 < s[s.len() - 1].id.0);
                }
            }
        } else {
            assert forall|i: int| 0 <= i < id_place(s, id) implies (#[trigger] s[i]).id.0 < id by {
                assert(f[i] == s[i]);
            }
            assert forall|i: int| id_place(s, id) <= i < s.len() implies (#[trigger] s[i]).id.0
                >= id by {
                if i < f.len() {
                    assert(f[i] == s[i]);
                }
            }
        }
    }
}

#[verifier::rlimit(40)]
proof fn lemma_with_finding(s: Seq<FindingView>, f: FindingView, id: u64)
    requires
        in_id_order(s),
    ensures
        in_id_order(with_finding(s, f)),
        with_finding(s, f).contains(f),
        lists_id(with_finding(s, f), id) <==> lists_id(s, id) || f.id.0 == id,
        forall|x: FindingView| #[trigger]
            with_finding(s, f).contains(x) <==> x == f || (s.contains(x) && x.id.0 != f.id.0),
{
    lemma_id_place(s, f.id.0);
    let k = id_place(s, f.id.0);
    let r = with_finding(s, f);
    if k < s.len() && s[k].id.0 == f.id.0 {
        assert(r == s.update(k, f));
        assert forall|i: int, j: int| 0 <= i < j < r.len() implies (#[trigger] r[i]).id.0 < (
        #[trigger] r[j]).id.0 by {
            assert(s[i].id.0 < s[j].id.0);
        }
        assert(r[k] == f);
        assert forall|x: FindingView| #[trigger] r.contains(x) <==> x == f || (s.contains(x)
            && x.id.0 != f.id.0) by {
            if r.contains(x) {
                let i = choose|i: int| 0 <= i < r.len() && r[i] == x;
                if i != k {
                    assert(s[i] == x);
                    if i < k {
                        assert(s[i].id.0 < s[k].id.0);
                    } else {
                        assert(s[k].id.0 < s[i].id.0);
                    }
                }
            }
            if s.contains(x) && x.id.0 != f.id.0 {
                let i = choose|i: int| 0 <= i < s.len() && s[i] == x;
                assert(r[i] == x);
            }
        }
    } else {
        assert(r == s.insert(k, f));
        assert forall|i: int, j: int| 0 <= i < j < r.len() implies (#[trigger] r[i]).id.0 < (
        #[trigger] r[j]).id.0 by {
            let a = if i < k {
                i
            } else {
                i - 1
            };
            let b = if j < k {
                j
            } else {
                j - 1
            };
            if i == k {
                assert(r[j] == s[b]);
                assert(s[b].id.0 >= f.id.0);
                if b > k {
                    assert(s[k].id.0 < s[b].id.0);
                }
            } else if j == k {
                assert(r[i] == s[a]);
            } else {
                assert(r[i] == s[a] && r[j] == s[b]);
            }
        }
        assert(r[k] == f);
        assert forall|x: FindingView| #[trigger] r.contains(x) <==> x == f || (s.contains(x)
            && x.id.0 != f.id.0) by {
            if r.contains(x) {
                let i = choose|i: int| 0 <= i < r.len() && r[i] == x;
                if i != k {
                    let a = if i < k {
                        i
                    } else {
                        i - 1
                    };
                    assert(s[a] == x);
                    if a >= k {
                        assert(s[a].id.0 >= f.id.0);
                        if a > k {
                            assert(s[k].id.0 < s[a].id.0);
                        }
                    }
                }
            }
            if s.contains(x) && x.id.0 != f.id.0 {
                let i = choose|i: int| 0 <= i < s.len() && s[i] == x;
                if i < k {
                    assert(r[i] == x);
                } else {
                    assert(r[i + 1] == x);
                }
            }
        }
    }
    if lists_id(r, id) {
        let i = choose|i: int| 0 <= i < r.len() && (#[trigger] r[i]).id.0 == id;
        assert(r.contains(r[i]));
        if r[i] != f {
            let j = choose|j: int| 0 <= j < s.len() && s[j] == r[i];
            assert(s[j].id.0 == id);
        }
    }
    if lists_id(s, id) {
        let i = choose|i: int| 0 <= i < s.len() && (#[trigger] s[i]).id.0 == id;
        if s[i].id.0 != f.id.0 {
            assert(s.contains(s[i]));
            assert(r.contains(s[i]));
            let j = choose|j: int| 0 <= j < r.len() && r[j] == s[i];
            assert(r[j].id.0 == id);
        } else {
            let j = choose|j: int| 0 <= j < r.len() && r[j] == f;
            assert(r[j].id.0 == id);
        }
    }
    if f.id.0 == id {
        let j = choose|j: int| 0 <= j < r.len() && r[j] == f;
        assert(r[j].id.0 == id);
    }
}

proof fn lemma_with_findings(s: Seq<FindingView>, more: Seq<FindingView>, id: u64)
    requires
        in_id_order(s),
    ensures
        in_id_order(with_findings(s, more)),
        lists_id(with_findings(s, more), id) <==> lists_id(s, id) || lists_id(more, id),
        forall|x: FindingView| #[trigger]
            with_findings(s, more).contains(x) ==> s.contains(x) || more.contains(x),
    decreases more.len(),
{
    if more.len() > 0 {
        let m = more.drop_last();
        let z = more.last();
        lemma_with_findings(s, m, id);
        let w = with_findings(s, m);
        lemma_with_finding(w, z, id);
        assert(more[more.len() - 1] == z);
        if lists_id(m, id) {
            let i = choose|i: int| 0 <= i < m.len() && (#[trigger] m[i]).id.0 == id;
            assert(more[i] == m[i]);
        }
        if lists_id(more, id) {
            let i = choose|i: int| 0 <= i < more.len() && (#[trigger] more[i]).id.0 == id;
            if i < m.len() {
                assert(m[i] == more[i]);
            }
        }
        assert forall|x: FindingView| #[trigger] with_findings(s, more).contains(x) implies s.contains(
            x,
        ) || more.contains(x) by {
            if x != z {
                assert(w.contains(x));
                if m.contains(x) {
                    let i = choose|i: int| 0 <= i < m.len() && m[i] == x;
                    assert(more[i] == x);
                }
            }
        }
    }
}

/// What is gathered from sections is all that they list: every number of theirs, each once and in order,
/// and nothing that none of them lists.
pub proof fn law_all_findings_are_gathered(s: SessionView, ids: Seq<ScannerId>, id: u64)
    ensures
        in_id_order(gathered(s, ids)),
        lists_id(gathered(s, ids), id) <==> exists|i: int|
            0 <= i < ids.len() && lists_id(s.slots[#[trigger] ids[i]].findings, id),
        forall|x: FindingView| #[trigger]
            gathered(s, ids).contains(x) ==> exists|i: int|
                0 <= i < ids.len() && s.slots[#[trigger] ids[i]].findings.contains(x),
    decreases ids.len(),
{
    if ids.len() > 0 {
        let f = ids.drop_last();
        law_all_findings_are_gathered(s, f, id);
        let more = s.slots[ids.last()].findings;
        lemma_with_findings(gathered(s, f), more, id);
        let n = ids.len() - 1;
        assert(ids[n] == ids.last());
        if exists|i: int| 0 <= i < f.len() && lists_id(s.slots[#[trigger] f[i]].findings, id) {
            let i = choose|i: int| 0 <= i < f.len() && lists_id(s.slots[#[trigger] f[i]].findings, id);
            assert(ids[i] == f[i]);
        }
        if exists|i: int| 0 <= i < ids.len() && lists_id(s.slots[#[trigger] ids[i]].findings, id) {
            let i = choose|i: int|
                0 <= i < ids.len() && lists_id(s.slots[#[trigger] ids[i]].findings, id);
            if i < n {
                assert(f[i] == ids[i]);
            }
        }
        assert forall|x: FindingView| #[trigger] gathered(s, ids).contains(x) implies exists|i: int|
            0 <= i < ids.len() && s.slots[#[trigger] ids[i]].findings.contains(x) by {
            if gathered(s, f).contains(x) {
                let i = choose|i: int|
                    0 <= i < f.len() && s.slots[#[trigger] f[i]].findings.contains(x);
                assert(ids[i] == f[i]);
            }
        }
    } else {
        assert(gathered(s, ids) =~= seq![]);
        assert(!lists_id(gathered(s, ids), id));
    }
}

/// What runs for a finding when nothing is chosen: all that destroys and is no alternative, in order; else
/// the first that is a command; else the first at all; and never an alternative.
pub proof fn law_what_runs_by_default(rs: Seq<RemedyView>)
    ensures
        ({
            let r = default_remedies(rs);
            &&& forall|i: int|
                0 <= i < r.len() ==> !(#[trigger] r[i]).alternative && rs.contains(r[i])
            &&& (exists|i: int| 0 <= i < rs.len() && !(#[trigger] rs[i]).alternative
                && rs[i].destructive) ==> (forall|x: RemedyView| #[trigger]
                r.contains(x) <==> rs.contains(x) && !x.alternative && x.destructive)
            &&& (exists|i: int| 0 <= i < rs.len() && !(#[trigger] rs[i]).alternative) <==> r.len()
                > 0
            &&& (forall|i: int|
                0 <= i < rs.len() && !(#[trigger] rs[i]).alternative ==> !rs[i].destructive)
                ==> r.len() <= 1
            &&& (forall|i: int|
                0 <= i < rs.len() && !(#[trigger] rs[i]).alternative ==> !rs[i].destructive) && (
            exists|i: int|
                0 <= i < rs.len() && !(#[trigger] rs[i]).alternative && rs[i].command is Shell)
                ==> r.len() == 1 && r[0].command is Shell
        }),
{
    let pd = primary_destructive();
    let removing = rs.filter(pd);
    let r = default_remedies(rs);
    assert forall|x: RemedyView| #[trigger] removing.contains(x) <==> rs.contains(x)
        && !x.alternative && x.destructive by {
        if removing.contains(x) {
            rs.lemma_filter_contains_rev(pd, x);
            let i = choose|i: int| 0 <= i < removing.len() && removing[i] == x;
            rs.lemma_filter_pred(pd, i);
            assert(pd(x));
        }
        if rs.contains(x) && !x.alternative && x.destructive {
            let i = choose|i: int| 0 <= i < rs.len() && rs[i] == x;
            assert(pd(rs[i]));
            rs.lemma_filter_contains(pd, i);
        }
    }
    lemma_first_remedy(rs, primary_shell());
    lemma_first_remedy(rs, primary());
    if removing.len() > 0 {
        assert(removing.contains(removing[0]));
        let i = choose|i: int| 0 <= i < rs.len() && rs[i] == removing[0];
        assert(!rs[i].alternative && rs[i].destructive);
        assert forall|i: int| 0 <= i < r.len() implies !(#[trigger] r[i]).alternative && rs.contains(
            r[i],
        ) by {
            assert(removing.contains(r[i]));
        }
    } else {
        if exists|i: int| 0 <= i < rs.len() && !(#[trigger] rs[i]).alternative && rs[i].destructive {
            let i = choose|i: int|
                0 <= i < rs.len() && !(#[trigger] rs[i]).alternative && rs[i].destructive;
            assert(rs.contains(rs[i]));
            assert(removing.contains(rs[i]));
        }
        if exists|i: int| 0 <= i < rs.len() && !(#[trigger] rs[i]).alternative {
            let i = choose|i: int| 0 <= i < rs.len() && !(#[trigger] rs[i]).alternative;
            assert(primary()(rs[i]) is Some);
        }
        if exists|i: int|
            0 <= i < rs.len() && !(#[trigger] rs[i]).alternative && rs[i].command is Shell {
            let i = choose|i: int|
                0 <= i < rs.len() && !(#[trigger] rs[i]).alternative && rs[i].command is Shell;
            assert(primary_shell()(rs[i]) is Some);
        }
    }
}

proof fn lemma_first_remedy(rs: Seq<RemedyView>, f: spec_fn(RemedyView) -> Option<RemedyView>)
    ensures
        first_some(rs, f) is Some ==> exists|i: int|
            0 <= i < rs.len() && f(#[trigger] rs[i]) == first_some(rs, f),
        first_some(rs, f) is None ==> forall|i: int| 0 <= i < rs.len() ==> f(#[trigger] rs[i]) is None,
    decreases rs.len(),
{
    if rs.len() > 0 {
        if f(rs[0]) is None {
            let t = rs.skip(1);
            lemma_first_remedy(t, f);
            if first_some(t, f) is Some {
                let i = choose|i: int| 0 <= i < t.len() && f(#[trigger] t[i]) == first_some(t, f);
                assert(rs[i + 1] == t[i]);
            } else {
                assert forall|i: int| 0 <= i < rs.len() implies f(#[trigger] rs[i]) is None by {
                    if i > 0 {
                        assert(t[i - 1] == rs[i]);
                    }
                }
            }
        }
    }
}

/// A chosen remedy is the one that runs, if the finding has it; a finding that is not there, and a remedy
/// that it has not, are refused.
pub proof fn law_what_is_chosen_runs(current: Seq<FindingView>, sel: Selection)
    requires
        in_id_order(current),
    ensures
        match sel.remedy_index {
            Some(i) => {
                &&& forall|n: int|
                    0 <= n < current.len() && (#[trigger] current[n]).id.0 == sel.finding_id && (
                    i as int) < current[n].remedies.len() ==> one_selected(current, sel) == Ok::<
                        Seq<(u64, RemedyView)>,
                        ErrorView,
                    >(seq![(sel.finding_id, current[n].remedies[i as int])])
                &&& forall|n: int|
                    0 <= n < current.len() && (#[trigger] current[n]).id.0 == sel.finding_id && (
                    i as int) >= current[n].remedies.len() ==> one_selected(current, sel) is Err
            },
            None => true,
        },
        !lists_id(current, sel.finding_id) ==> one_selected(current, sel) is Err,
{
    lemma_id_place(current, sel.finding_id);
    let k = id_place(current, sel.finding_id);
    assert forall|n: int|
        0 <= n < current.len() && (#[trigger] current[n]).id.0 == sel.finding_id implies n == k by {
        if n > k {
            assert(current[k].id.0 < current[n].id.0);
        }
    }
}

/// What a selection runs is what each of its parts runs, in order; one part that is refused refuses all,
/// and so does a selection that runs nothing.
pub proof fn law_a_selection_runs_its_parts(
    current: Seq<FindingView>,
    sel: Seq<Selection>,
    more: Selection,
)
    ensures
        all_selected(current, sel.push(more)) == (match (
            all_selected(current, sel),
            one_selected(current, more),
        ) {
            (Ok(a), Ok(b)) => Ok(a + b),
            (Err(e), _) => Err(e),
            (_, Err(e)) => Err(e),
        }),
        all_selected(current, seq![]) == Ok::<Seq<(u64, RemedyView)>, ErrorView>(seq![]),
        selection_items(current, sel) is Ok <==> all_selected(current, sel) is Ok && all_selected(
            current,
            sel,
        )->Ok_0.len() > 0,
        selection_items(current, sel) is Ok ==> selection_items(current, sel) == all_selected(
            current,
            sel,
        ),
{
    assert(sel.push(more).drop_last() =~= sel);
    assert(sel.push(more).last() == more);
}

/// Of findings from a whole correlation each stands in its own section afterwards.
pub proof fn law_correlated_findings_are_kept(s: SessionView, fs: Seq<FindingView>, f: FindingView)
    requires
        s.slots.contains_key(f.section),
        in_id_order(all_upserted(s, fs).slots[f.section].findings),
    ensures
        finding_with_id(
            all_upserted(s, fs.push(f)).slots[f.section].findings,
            f.id.0,
        ) == Some(f),
        forall|id: ScannerId|
            id != f.section && s.slots.contains_key(id) ==> #[trigger] all_upserted(
                s,
                fs.push(f),
            ).slots[id] == all_upserted(s, fs).slots[id],
{
    assert(fs.push(f).drop_last() =~= fs);
    law_put_finding_is_found(all_upserted(s, fs).slots[f.section].findings, f, f.id.0);
}

/// Findings are correlated once for each scan that they are due for: when all sections that take part have
/// ended, and not again before another such scan begins.
pub proof fn law_when_correlation_is_due(s: SessionView)
    ensures
        correlation_due(s) <==> s.correlated_gen != s.full_scan_gen && forall|i: int|
            0 <= i < s.correlated.len() ==> s.slots[#[trigger] s.correlated[i]].status
                == StatusView::Done || s.slots[s.correlated[i]].status is Failed,
        !correlation_due(SessionView { correlated_gen: s.full_scan_gen, ..s }),
{
    assert(all_terminal(s, s.correlated) <==> forall|i: int|
        0 <= i < s.correlated.len() ==> is_terminal(s.slots[#[trigger] s.correlated[i]].status));
    if all_terminal(s, s.correlated) {
        assert forall|i: int| 0 <= i < s.correlated.len() implies s.slots[#[trigger] s.correlated[i]].status
            == StatusView::Done || s.slots[s.correlated[i]].status is Failed by {
            assert(is_terminal(s.slots[s.correlated[i]].status));
        }
    }
}

/// A scan makes a new correlation due where one of its sections takes part, and else leaves it as it was.
pub proof fn law_scans_that_call_for_correlation(s: SessionView, gen: u64, ids: Seq<ScannerId>, i: int)
    ensures
        0 <= i < ids.len() && s.correlated.contains(ids[i]) ==> begun(s, gen, ids).full_scan_gen == gen,
        (forall|j: int| 0 <= j < ids.len() ==> !s.correlated.contains(#[trigger] ids[j])) && (exists|
            id: ScannerId,
        |
            all_scanners().contains(id) && !#[trigger] ids.contains(id)) ==> begun(
            s,
            gen,
            ids,
        ).full_scan_gen == s.full_scan_gen,
{
    if exists|id: ScannerId| all_scanners().contains(id) && !#[trigger] ids.contains(id) {
        let id = choose|id: ScannerId| all_scanners().contains(id) && !#[trigger] ids.contains(id);
        let k = choose|k: int| 0 <= k < all_scanners().len() && all_scanners()[k] == id;
        assert(!ids.contains(all_scanners()[k]));
    }
}

/// Fewer than two hundred findings wait to be told.
pub proof fn law_few_findings_wait(p: PendingView, ev: ScanEvent)
    requires
        p.count < 200,
    ensures
        waiting_after(p, ev).count < 200,
        ev is Finished || ev is Failed || ev is Started ==> waiting_after(p, ev).count == 0
            && waiting_after(p, ev).findings.len() == 0,
{
}

/// The row of an owner is the one that bears its key.
pub proof fn law_rows_are_found_by_key(f: Seq<FootprintView>, key: Seq<char>)
    ensures
        match row_of(f, key) {
            Some(r) => f.contains(r) && r.owner.key == key,
            None => forall|i: int| 0 <= i < f.len() ==> (#[trigger] f[i]).owner.key != key,
        },
    decreases f.len(),
{
    if f.len() > 0 {
        if f[0].owner.key != key {
            law_rows_are_found_by_key(f.skip(1), key);
            match row_of(f, key) {
                Some(r) => {
                    let i = choose|i: int| 0 <= i < f.skip(1).len() && f.skip(1)[i] == r;
                    assert(f[i + 1] == r);
                },
                None => {
                    assert forall|i: int| 0 <= i < f.len() implies (#[trigger] f[i]).owner.key
                        != key by {
                        if i > 0 {
                            assert(f.skip(1)[i - 1] == f[i]);
                        }
                    }
                },
            }
        }
    }
}

/// A tree takes the place of the one with its root; trees of other roots stay.
pub proof fn law_a_tree_replaces_its_former_one(trees: Seq<TreeView>, t: TreeView, u: TreeView)
    ensures
        with_tree(trees, t).last() == t,
        u.root != t.root ==> (with_tree(trees, t).contains(u) <==> trees.contains(u)),
        u.root == t.root && with_tree(trees, t).contains(u) ==> u == t,
{
    let f = other_root(t.root);
    let k = trees.filter(f);
    let r = k.push(t);
    if u.root != t.root && trees.contains(u) {
        let i = choose|i: int| 0 <= i < trees.len() && trees[i] == u;
        trees.lemma_filter_contains(f, i);
        let j = choose|j: int| 0 <= j < k.len() && k[j] == u;
        assert(r[j] == u);
    }
    if r.contains(u) && u != t {
        let j = choose|j: int| 0 <= j < r.len() && r[j] == u;
        assert(k[j] == u);
        trees.lemma_filter_pred(f, j);
        trees.lemma_filter_contains_rev(f, u);
    }
}

} // verus!
