//! The engine's decisions: which remedies a selection stands for, when a batch may run, what the app
//! is told while it runs, and when the findings may be kept.

use vstd::prelude::*;

use crate::cleanup;
use crate::cleanup::{PlannedAction, PreflightReport};
use crate::scan::{
    scanner_slug, DeleteMode, Finding, FindingId, FindingView, Remedy, RemedyCommand, RemedyView,
    ScannerId,
};
use crate::seqs::{first_some, lemma_first_some_step};
use crate::text::{cat2, cat4, decimal, decimal_text};

use super::mapping::{
    exec_record, plan_summary, section_ids, sections_of, summary_record, ExecEvent, ExecRecord,
    PlanSummary, ScanEvent, Selection,
};
use super::session::{find_finding, finding_with_id, has_failed, Session, SessionView};

verus! {

/// Why the engine refuses a request.
#[derive(Clone, Debug, PartialEq, Eq)]
pub enum MacAuditError {
    /// The configuration could not be read.
    Config(String),
    /// A snapshot could not be kept or read.
    Snapshot(String),
    /// A batch is running already.
    Busy(String),
    /// The request names something that the engine does not have.
    Invalid(String),
}

/// Why the engine refuses a request, as a value.
#[verifier::ext_equal]
pub enum ErrorView {
    Config(Seq<char>),
    Snapshot(Seq<char>),
    Busy(Seq<char>),
    Invalid(Seq<char>),
}

impl View for MacAuditError {
    type V = ErrorView;

    open spec fn view(&self) -> ErrorView {
        match self {
            MacAuditError::Config(m) => ErrorView::Config(m@),
            MacAuditError::Snapshot(m) => ErrorView::Snapshot(m@),
            MacAuditError::Busy(m) => ErrorView::Busy(m@),
            MacAuditError::Invalid(m) => ErrorView::Invalid(m@),
        }
    }
}

impl DeepView for MacAuditError {
    type V = ErrorView;

    open spec fn deep_view(&self) -> ErrorView {
        self@
    }
}

/// What an error says.
pub open spec fn error_text(e: ErrorView) -> Seq<char> {
    match e {
        ErrorView::Config(m) => "config: "@ + m,
        ErrorView::Snapshot(m) => "snapshot: "@ + m,
        ErrorView::Busy(m) => "busy: "@ + m,
        ErrorView::Invalid(m) => "invalid: "@ + m,
    }
}

impl MacAuditError {
    /// What the error says.
    pub fn message(&self) -> (r: String)
        ensures
            r@ == error_text(self@),
    {
        match self {
            MacAuditError::Config(m) => cat2("config: ", m.as_str()),
            MacAuditError::Snapshot(m) => cat2("snapshot: ", m.as_str()),
            MacAuditError::Busy(m) => cat2("busy: ", m.as_str()),
            MacAuditError::Invalid(m) => cat2("invalid: ", m.as_str()),
        }
    }
}

/// One who is told of the scans.
pub trait ScanListener {
    fn on_event(&self, event: ScanEvent);
}

/// One who is told of the batches.
pub trait ExecListener {
    fn on_event(&self, event: ExecEvent);
}

/// How the engine is set up.
#[derive(Clone, Debug)]
pub struct EngineOptions {
    /// The home directory, where it is not the user's own.
    pub home_override: Option<String>,
    /// Whether findings are made up.
    pub fake: bool,
    /// Whether the network is left alone.
    pub offline: bool,
    /// Whether deleting removes for good.
    pub rm_mode: bool,
}

impl Default for EngineOptions {
    fn default() -> (r: EngineOptions)
        ensures
            r.home_override is None,
            !r.fake,
            !r.offline,
            !r.rm_mode,
    {
        EngineOptions { home_override: None, fake: false, offline: false, rm_mode: false }
    }
}

impl EngineOptions {
    /// How deleting is done: for good where that was asked for, else as it is configured.
    pub fn delete_mode(&self, configured: DeleteMode) -> (r: DeleteMode)
        ensures
            r == (if self.rm_mode {
                DeleteMode::Rm
            } else {
                configured
            }),
    {
        if self.rm_mode {
            DeleteMode::Rm
        } else {
            configured
        }
    }

    /// Whether the network is used: neither the options nor the configuration forbid it, and the
    /// findings are not made up.
    pub fn uses_network(&self, configured_offline: bool) -> (r: bool)
        ensures
            r == (!self.offline && !configured_offline && !self.fake),
    {
        !self.offline && !configured_offline && !self.fake
    }
}

/// A remedy that is not just another way.
pub open spec fn is_primary(r: RemedyView) -> bool {
    !r.alternative
}

/// A remedy that removes something and is not just another way.
pub open spec fn primary_destructive() -> spec_fn(RemedyView) -> bool {
    |r: RemedyView| is_primary(r) && r.destructive
}

/// A command of the shell that is not just another way.
pub open spec fn primary_shell() -> spec_fn(RemedyView) -> Option<RemedyView> {
    |r: RemedyView|
        if is_primary(r) && r.command is Shell {
            Some(r)
        } else {
            None
        }
}

/// A remedy that is not just another way, as a function.
pub open spec fn primary() -> spec_fn(RemedyView) -> Option<RemedyView> {
    |r: RemedyView|
        if is_primary(r) {
            Some(r)
        } else {
            None
        }
}

/// The remedies that are run where the user has chosen none: all that remove something, else the
/// first command of the shell, else the first; those that are just another way do not count.
pub open spec fn default_remedies(rs: Seq<RemedyView>) -> Seq<RemedyView> {
    let removing = rs.filter(primary_destructive());
    if removing.len() > 0 {
        removing
    } else {
        match first_some(rs, primary_shell()) {
            Some(r) => seq![r],
            None => match first_some(rs, primary()) {
                Some(r) => seq![r],
                None => seq![],
            },
        }
    }
}

/// The remedies that are run against a finding.
pub open spec fn chosen_remedies(rs: Seq<RemedyView>, choice: Option<usize>) -> Seq<RemedyView> {
    match choice {
        Some(i) => seq![rs[i as int]],
        None => default_remedies(rs),
    }
}

fn removing_remedies(rs: &Vec<Remedy>) -> (r: Vec<Remedy>)
    ensures
        r.deep_view() == rs.deep_view().filter(primary_destructive()),
{
    let ghost all = rs.deep_view();
    let mut out: Vec<Remedy> = Vec::new();
    let mut i: usize = 0;
    proof {
        assert(all.take(0) =~= seq![]);
        reveal(Seq::filter);
        assert(out.deep_view() =~= all.take(0).filter(primary_destructive()));
    }
    while i < rs.len()
        invariant
            i <= rs.len(),
            all == rs.deep_view(),
            out.deep_view() == all.take(i as int).filter(primary_destructive()),
        decreases rs.len() - i,
    {
        let ghost was = out.deep_view();
        proof {
            reveal(Seq::filter);
            assert(all.take(i + 1).drop_last() =~= all.take(i as int));
            assert(all.take(i + 1).last() == rs@[i as int]@);
        }
        if !rs[i].alternative && rs[i].destructive {
            let x = rs[i].copy();
            out.push(x);
            assert(out.deep_view() =~= was.push(x@));
        }
        assert(out.deep_view() =~= all.take(i + 1).filter(primary_destructive()));
        i = i + 1;
    }
    assert(all.take(i as int) =~= all);
    out
}

fn first_shell(rs: &Vec<Remedy>) -> (r: Option<usize>)
    ensures
        r is Some <==> first_some(rs.deep_view(), primary_shell()) is Some,
        r is Some ==> r->0 < rs.len() && rs@[r->0 as int]@ == first_some(
            rs.deep_view(),
            primary_shell(),
        )->0,
{
    let ghost all = rs.deep_view();
    let mut i: usize = 0;
    assert(all.skip(0) =~= all);
    while i < rs.len()
        invariant
            i <= rs.len(),
            all == rs.deep_view(),
            first_some(all, primary_shell()) == first_some(all.skip(i as int), primary_shell()),
        decreases rs.len() - i,
    {
        proof {
            assert(all[i as int] == rs@[i as int]@);
            lemma_first_some_step(all, primary_shell(), i as int);
        }
        let shell = match &rs[i].command {
            RemedyCommand::Shell { .. } => true,
            _ => false,
        };
        if !rs[i].alternative && shell {
            return Some(i);
        }
        i = i + 1;
    }
    None
}

fn first_primary(rs: &Vec<Remedy>) -> (r: Option<usize>)
    ensures
        r is Some <==> first_some(rs.deep_view(), primary()) is Some,
        r is Some ==> r->0 < rs.len() && rs@[r->0 as int]@ == first_some(
            rs.deep_view(),
            primary(),
        )->0,
{
    let ghost all = rs.deep_view();
    let mut i: usize = 0;
    assert(all.skip(0) =~= all);
    while i < rs.len()
        invariant
            i <= rs.len(),
            all == rs.deep_view(),
            first_some(all, primary()) == first_some(all.skip(i as int), primary()),
        decreases rs.len() - i,
    {
        proof {
            assert(all[i as int] == rs@[i as int]@);
            lemma_first_some_step(all, primary(), i as int);
        }
        if !rs[i].alternative {
            return Some(i);
        }
        i = i + 1;
    }
    None
}

/// The remedies that are run against a finding: the one that the user has chosen, or what the
/// default rule gives.
pub fn execution_remedies(f: &Finding, choice: Option<usize>) -> (r: Vec<Remedy>)
    requires
        choice is Some ==> choice->0 < f.remedies.len(),
    ensures
        r.deep_view() == chosen_remedies(f@.remedies, choice),
{
    let rs = &f.remedies;
    let mut out: Vec<Remedy> = Vec::new();
    let picked = match choice {
        Some(i) => Some(i),
        None => {
            let removing = removing_remedies(rs);
            assert(removing.deep_view().len() == removing.len());
            if removing.len() > 0 {
                return removing;
            }
            match first_shell(rs) {
                Some(i) => Some(i),
                None => first_primary(rs),
            }
        },
    };
    if let Some(i) = picked {
        assert(rs.deep_view()[i as int] == rs@[i as int]@);
        out.push(rs[i].copy());
    }
    assert(out.deep_view() =~= chosen_remedies(f@.remedies, choice));
    out
}

/// What a selected finding stands for: its remedies, or why it stands for none.
pub open spec fn one_selected(current: Seq<FindingView>, sel: Selection) -> Result<
    Seq<(u64, RemedyView)>,
    ErrorView,
> {
    match finding_with_id(current, sel.finding_id) {
        None => Err(ErrorView::Invalid("no finding "@ + decimal(sel.finding_id as nat))),
        Some(f) => match sel.remedy_index {
            Some(i) => if (i as int) < f.remedies.len() {
                Ok(seq![(f.id.0, f.remedies[i as int])])
            } else {
                Err(
                    ErrorView::Invalid(
                        "finding "@ + decimal(sel.finding_id as nat) + " has no remedy #"@
                            + decimal(i as nat),
                    ),
                )
            },
            None => Ok(with_id(f.id.0, default_remedies(f.remedies))),
        },
    }
}

/// Remedies, each with the number of the finding.
pub open spec fn with_id(id: u64, rs: Seq<RemedyView>) -> Seq<(u64, RemedyView)> {
    Seq::new(rs.len(), |i: int| (id, rs[i]))
}

/// What selected findings stand for, one behind the other; the first that stands for nothing decides
/// why all are refused.
pub open spec fn all_selected(current: Seq<FindingView>, sel: Seq<Selection>) -> Result<
    Seq<(u64, RemedyView)>,
    ErrorView,
>
    decreases sel.len(),
{
    if sel.len() == 0 {
        Ok(seq![])
    } else {
        match all_selected(current, sel.drop_last()) {
            Err(e) => Err(e),
            Ok(items) => match one_selected(current, sel.last()) {
                Err(e) => Err(e),
                Ok(more) => Ok(items + more),
            },
        }
    }
}

/// What a selection stands for; one without any remedy is refused.
pub open spec fn selection_items(current: Seq<FindingView>, sel: Seq<Selection>) -> Result<
    Seq<(u64, RemedyView)>,
    ErrorView,
> {
    match all_selected(current, sel) {
        Err(e) => Err(e),
        Ok(items) => if items.len() == 0 {
            Err(ErrorView::Invalid("selection has no runnable remedies"@))
        } else {
            Ok(items)
        },
    }
}

/// A remedy that is to be run against a finding.
#[derive(Debug)]
pub struct Item {
    pub finding_id: FindingId,
    pub remedy: Remedy,
}

impl DeepView for Item {
    type V = (u64, RemedyView);

    open spec fn deep_view(&self) -> (u64, RemedyView) {
        (self.finding_id.0, self.remedy@)
    }
}

/// A result over items, as a value.
pub open spec fn items_result(r: Result<Vec<Item>, MacAuditError>) -> Result<
    Seq<(u64, RemedyView)>,
    ErrorView,
> {
    match r {
        Ok(v) => Ok(v.deep_view()),
        Err(e) => Err(e@),
    }
}

fn select_one(current: &Vec<Finding>, sel: &Selection) -> (r: Result<Vec<Item>, MacAuditError>)
    ensures
        items_result(r) == one_selected(current.deep_view(), *sel),
{
    let f = match find_finding(current, FindingId(sel.finding_id)) {
        Some(f) => f,
        None => {
            return Err(
                MacAuditError::Invalid(
                    cat2("no finding ", decimal_text(sel.finding_id).as_str()),
                ),
            );
        },
    };
    assert(f@.remedies.len() == f.remedies.len());
    let choice = match sel.remedy_index {
        Some(i) => {
            if (i as usize) < f.remedies.len() {
                Some(i as usize)
            } else {
                return Err(
                    MacAuditError::Invalid(
                        cat4(
                            "finding ",
                            decimal_text(sel.finding_id).as_str(),
                            " has no remedy #",
                            decimal_text(i as u64).as_str(),
                        ),
                    ),
                );
            }
        },
        None => None,
    };
    let remedies = execution_remedies(f, choice);
    let ghost rs = remedies.deep_view();
    let ghost want = with_id(f@.id.0, rs);
    let mut rest = remedies;
    let mut out: Vec<Item> = Vec::new();
    assert(rest.deep_view() =~= rs.skip(0));
    while rest.len() > 0
        invariant
            out.len() + rest.len() == rs.len(),
            rest.deep_view() == rs.skip(out.len() as int),
            want == with_id(f@.id.0, rs),
            out.deep_view() =~= want.take(out.len() as int),
        decreases rest.len(),
    {
        let ghost n = out.len() as int;
        let ghost before = rest.deep_view();
        let ghost items = rest@;
        let ghost done = out.deep_view();
        let remedy = rest.remove(0);
        proof {
            assert(remedy@ == before[0]);
            assert(before[0] == rs[n]);
            assert(rest@ == items.remove(0));
            assert(rest.deep_view() =~= before.skip(1));
            assert(rest.deep_view() =~= rs.skip(n + 1));
        }
        let item = Item { finding_id: f.id, remedy };
        out.push(item);
        assert(out.deep_view() =~= done.push(item.deep_view()));
    }
    assert(out.deep_view() =~= want);
    proof {
        if let Some(i) = choice {
            assert(want =~= seq![(f@.id.0, f@.remedies[i as int])]);
        }
    }
    Ok(out)
}

/// What a selection stands for: the remedies of its findings, one behind the other. It is refused
/// where it names a finding or a remedy that there is not, and where no remedy is left.
pub fn select_items(current: &Vec<Finding>, selection: &Vec<Selection>) -> (r: Result<
    Vec<Item>,
    MacAuditError,
>)
    ensures
        items_result(r) == selection_items(current.deep_view(), selection@),
{
    let ghost cs = current.deep_view();
    let ghost all = selection@;
    let mut out: Vec<Item> = Vec::new();
    let mut i: usize = 0;
    assert(out.deep_view() =~= seq![]);
    while i < selection.len()
        invariant
            i <= selection.len(),
            cs == current.deep_view(),
            all == selection@,
            all_selected(cs, all.take(i as int)) == Ok::<Seq<(u64, RemedyView)>, ErrorView>(
                out.deep_view(),
            ),
        decreases selection.len() - i,
    {
        proof {
            assert(all.take(i + 1).drop_last() =~= all.take(i as int));
            assert(all.take(i + 1).last() == selection@[i as int]);
        }
        let ghost was = out.deep_view();
        match select_one(current, &selection[i]) {
            Ok(more) => {
                let ghost m = more.deep_view();
                let mut rest = more;
                out.append(&mut rest);
                assert(out.deep_view() =~= was + m);
            },
            Err(e) => {
                proof {
                    lemma_error_stays(cs, all, i + 1);
                }
                return Err(e);
            },
        }
        i = i + 1;
    }
    assert(all.take(i as int) =~= all);
    assert(out.deep_view().len() == out.len());
    if out.len() == 0 {
        return Err(MacAuditError::Invalid("selection has no runnable remedies".to_owned()));
    }
    Ok(out)
}

proof fn lemma_error_stays(current: Seq<FindingView>, sel: Seq<Selection>, n: int)
    requires
        0 <= n <= sel.len(),
        all_selected(current, sel.take(n)) is Err,
    ensures
        all_selected(current, sel) == all_selected(current, sel.take(n)),
    decreases sel.len() - n,
{
    if n < sel.len() {
        assert(sel.take(n + 1).drop_last() =~= sel.take(n));
        lemma_error_stays(current, sel, n + 1);
    } else {
        assert(sel.take(n) =~= sel);
    }
}

/// A batch that was looked at ahead.
#[derive(Debug)]
pub struct Plan {
    pub actions: Vec<PlannedAction>,
    /// The sections that the batch touches.
    pub affected: Vec<ScannerId>,
    pub summary: PlanSummary,
}

impl Plan {
    /// The plan of a batch: the actions that may run, and what the look ahead says.
    pub fn new(report: PreflightReport, delete_mode: DeleteMode, affected: Vec<ScannerId>) -> (r: Plan)
        ensures
            r.actions == report.ok,
            r.affected == affected,
            r.summary@ == summary_record(report@, delete_mode, affected@),
    {
        let summary = plan_summary(&report, delete_mode, &affected);
        Plan { actions: report.ok, affected, summary }
    }

    /// What the look ahead says.
    pub fn summary(&self) -> (r: &PlanSummary)
        ensures
            *r == self.summary,
    {
        &self.summary
    }
}

/// Whether a batch is running.
#[derive(Debug)]
pub struct Cleanup {
    pub running: bool,
}

impl Cleanup {
    /// No batch is running.
    pub fn new() -> (r: Cleanup)
        ensures
            !r.running,
    {
        Cleanup { running: false }
    }

    /// Begin a batch. An empty one is refused, and so is a second one while another is running.
    pub fn begin(&mut self, plan: &Plan) -> (r: Result<(), MacAuditError>)
        ensures
            plan.actions@.len() == 0 ==> r is Err && r->Err_0@ == ErrorView::Invalid(
                "plan has no runnable actions"@,
            ),
            plan.actions@.len() > 0 && old(self).running ==> r is Err && r->Err_0@
                == ErrorView::Busy("a cleanup batch is already running"@),
            r is Ok <==> plan.actions@.len() > 0 && !old(self).running,
            final(self).running == (old(self).running || r is Ok),
    {
        if plan.actions.len() == 0 {
            return Err(MacAuditError::Invalid("plan has no runnable actions".to_owned()));
        }
        if self.running {
            return Err(MacAuditError::Busy("a cleanup batch is already running".to_owned()));
        }
        self.running = true;
        Ok(())
    }

    /// Whether a step of the batch has the sections that it touches scanned again.
    pub fn rescans(ev: &cleanup::ExecEvent, affected: &Vec<ScannerId>) -> (r: bool)
        ensures
            r == (ev is Executed && affected@.len() > 0),
    {
        let executed = match ev {
            cleanup::ExecEvent::Executed { .. } => true,
            _ => false,
        };
        executed && affected.len() > 0
    }

    /// What the app is told of a step of the batch: with the sections that are scanned again, and
    /// the scan in which they report. With the last step the batch has ended.
    pub fn forward(
        &mut self,
        ev: cleanup::ExecEvent,
        affected: &Vec<ScannerId>,
        rescan_gen: Option<u64>,
    ) -> (r: ExecEvent)
        ensures
            r@ == told_of_step(ev, affected@, rescan_gen),
            final(self).running == (old(self).running && !(ev is Finished)),
    {
        let finished = match &ev {
            cleanup::ExecEvent::Finished { .. } => true,
            _ => false,
        };
        if finished {
            self.running = false;
        }
        let rescan = Cleanup::rescans(&ev, affected);
        let mut told = ExecEvent::from(ev);
        if rescan {
            if let ExecEvent::Executed { cancelled, .. } = told {
                told = ExecEvent::Executed {
                    cancelled,
                    rescanning: section_ids(affected),
                    rescan_gen,
                };
            }
        }
        told
    }
}

/// What the app is told of a step of a batch.
pub open spec fn told_of_step(
    ev: cleanup::ExecEvent,
    affected: Seq<ScannerId>,
    rescan_gen: Option<u64>,
) -> ExecRecord {
    match exec_record(ev) {
        ExecRecord::Executed { cancelled, .. } => if affected.len() > 0 {
            ExecRecord::Executed { cancelled, rescanning: sections_of(affected), rescan_gen }
        } else {
            exec_record(ev)
        },
        other => other,
    }
}

/// The names of sections, with commas between them.
pub open spec fn slug_list(ids: Seq<ScannerId>) -> Seq<char>
    decreases ids.len(),
{
    if ids.len() == 0 {
        seq![]
    } else if ids.len() == 1 {
        scanner_slug(ids[0])
    } else {
        slug_list(ids.drop_last()) + ", "@ + scanner_slug(ids.last())
    }
}

fn join_slugs(ids: &Vec<ScannerId>) -> (r: String)
    ensures
        r@ == slug_list(ids@),
{
    let mut out = String::new();
    let mut i: usize = 0;
    assert(out@ =~= slug_list(ids@.take(0)));
    while i < ids.len()
        invariant
            i <= ids.len(),
            out@ == slug_list(ids@.take(i as int)),
        decreases ids.len() - i,
    {
        let ghost was = out@;
        proof {
            assert(ids@.take(i + 1).drop_last() =~= ids@.take(i as int));
            assert(ids@.take(i + 1).last() == ids@[i as int]);
        }
        if i > 0 {
            out.append(", ");
        }
        out.append(ids[i].slug());
        proof {
            if i == 0 {
                assert(was =~= seq![]);
                assert(ids@.take(1)[0] == ids@[0]);
                assert(out@ =~= scanner_slug(ids@[0]));
            } else {
                assert(out@ =~= was + ", "@ + scanner_slug(ids@[i as int]));
            }
        }
        i = i + 1;
    }
    assert(ids@.take(i as int) =~= ids@);
    out
}

/// Why the findings may not be kept: sections whose scan has failed.
pub open spec fn refusal_to_keep(s: SessionView, ids: Seq<ScannerId>) -> Option<ErrorView> {
    let failed = ids.filter(has_failed(s));
    if failed.len() == 0 {
        None
    } else {
        Some(
            ErrorView::Snapshot(
                decimal(failed.len()) + " section(s) failed ("@ + slug_list(failed) + ")"@,
            ),
        )
    }
}

/// Why the findings may not be kept: not while the last scan of a section has failed, since what is
/// missing would look as if it had been removed.
pub fn snapshot_refusal(session: &Session, sections: &[ScannerId]) -> (r: Option<MacAuditError>)
    requires
        session.wf(),
    ensures
        r.deep_view() == refusal_to_keep(session@, sections@),
{
    let failed = session.failed_sections(sections);
    if failed.len() == 0 {
        return None;
    }
    let names = join_slugs(&failed);
    let m = cat4(
        decimal_text(failed.len() as u64).as_str(),
        " section(s) failed (",
        names.as_str(),
        ")",
    );
    Some(MacAuditError::Snapshot(m))
}

} // verus!
