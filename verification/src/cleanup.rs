//! Cleaning up: the actions that a batch runs, what a look ahead says of them, and what is reported
//! while they run.

use vstd::prelude::*;

use crate::fspath::FilePath;
use crate::scan::FindingId;

verus! {

/// An action that is planned against a finding.
#[derive(Clone, Debug, PartialEq, Eq)]
pub struct PlannedAction {
    pub finding_id: FindingId,
    pub label: String,
    /// The command as the user sees it before it runs.
    pub rendered: String,
    pub destructive: bool,
    pub reclaims_bytes: Option<u64>,
}

/// An action that is planned against a finding, as a value.
#[verifier::ext_equal]
pub struct PlannedActionValue {
    pub finding_id: FindingId,
    pub label: Seq<char>,
    pub rendered: Seq<char>,
    pub destructive: bool,
    pub reclaims_bytes: Option<u64>,
}

impl View for PlannedAction {
    type V = PlannedActionValue;

    open spec fn view(&self) -> PlannedActionValue {
        PlannedActionValue {
            finding_id: self.finding_id,
            label: self.label@,
            rendered: self.rendered@,
            destructive: self.destructive,
            reclaims_bytes: self.reclaims_bytes,
        }
    }
}

impl DeepView for PlannedAction {
    type V = PlannedActionValue;

    open spec fn deep_view(&self) -> PlannedActionValue {
        self@
    }
}

/// An action that must not run, and why.
#[derive(Clone, Debug, PartialEq, Eq)]
pub struct Refused {
    pub action: PlannedAction,
    pub reason: String,
}

/// An action that must not run, and why, as a value.
#[verifier::ext_equal]
pub struct RefusedValue {
    pub action: PlannedActionValue,
    pub reason: Seq<char>,
}

impl View for Refused {
    type V = RefusedValue;

    open spec fn view(&self) -> RefusedValue {
        RefusedValue {
            action: self.action@,
            reason: self.reason@,
        }
    }
}

impl DeepView for Refused {
    type V = RefusedValue;

    open spec fn deep_view(&self) -> RefusedValue {
        self@
    }
}

/// A package that cannot go, and what keeps it.
#[derive(Clone, Debug, PartialEq, Eq)]
pub struct Retained {
    pub name: String,
    pub retained_by: Vec<String>,
}

/// A package that cannot go, and what keeps it, as a value.
#[verifier::ext_equal]
pub struct RetainedValue {
    pub name: Seq<char>,
    pub retained_by: Seq<Seq<char>>,
}

impl View for Retained {
    type V = RetainedValue;

    open spec fn view(&self) -> RetainedValue {
        RetainedValue {
            name: self.name@,
            retained_by: self.retained_by.deep_view(),
        }
    }
}

impl DeepView for Retained {
    type V = RetainedValue;

    open spec fn deep_view(&self) -> RetainedValue {
        self@
    }
}

/// What removing packages does to those that depend on them.
#[derive(Clone, Debug, PartialEq, Eq)]
pub struct RemovalPreview {
    pub removable: Vec<String>,
    pub blocked: Vec<Retained>,
    pub newly_orphaned: Vec<String>,
    pub confirmed_orphans: Vec<String>,
    pub uncertain_orphans: Vec<String>,
    pub bytes_selected: Option<u64>,
    pub bytes_with_orphans: Option<u64>,
    pub caveats: Vec<String>,
}

/// What removing packages does to those that depend on them, as a value.
#[verifier::ext_equal]
pub struct RemovalPreviewValue {
    pub removable: Seq<Seq<char>>,
    pub blocked: Seq<RetainedValue>,
    pub newly_orphaned: Seq<Seq<char>>,
    pub confirmed_orphans: Seq<Seq<char>>,
    pub uncertain_orphans: Seq<Seq<char>>,
    pub bytes_selected: Option<u64>,
    pub bytes_with_orphans: Option<u64>,
    pub caveats: Seq<Seq<char>>,
}

impl View for RemovalPreview {
    type V = RemovalPreviewValue;

    open spec fn view(&self) -> RemovalPreviewValue {
        RemovalPreviewValue {
            removable: self.removable.deep_view(),
            blocked: self.blocked.deep_view(),
            newly_orphaned: self.newly_orphaned.deep_view(),
            confirmed_orphans: self.confirmed_orphans.deep_view(),
            uncertain_orphans: self.uncertain_orphans.deep_view(),
            bytes_selected: self.bytes_selected,
            bytes_with_orphans: self.bytes_with_orphans,
            caveats: self.caveats.deep_view(),
        }
    }
}

impl DeepView for RemovalPreview {
    type V = RemovalPreviewValue;

    open spec fn deep_view(&self) -> RemovalPreviewValue {
        self@
    }
}

/// What a look ahead says of a batch.
#[derive(Clone, Debug, PartialEq, Eq)]
pub struct PreflightReport {
    pub ok: Vec<PlannedAction>,
    pub refused: Vec<Refused>,
    pub removed: Vec<String>,
    pub remaining: Vec<String>,
    pub follow_up: Vec<String>,
    pub brew_preview: Option<RemovalPreview>,
}

/// What a look ahead says of a batch, as a value.
#[verifier::ext_equal]
pub struct PreflightReportValue {
    pub ok: Seq<PlannedActionValue>,
    pub refused: Seq<RefusedValue>,
    pub removed: Seq<Seq<char>>,
    pub remaining: Seq<Seq<char>>,
    pub follow_up: Seq<Seq<char>>,
    pub brew_preview: Option<RemovalPreviewValue>,
}

impl View for PreflightReport {
    type V = PreflightReportValue;

    open spec fn view(&self) -> PreflightReportValue {
        PreflightReportValue {
            ok: self.ok.deep_view(),
            refused: self.refused.deep_view(),
            removed: self.removed.deep_view(),
            remaining: self.remaining.deep_view(),
            follow_up: self.follow_up.deep_view(),
            brew_preview: self.brew_preview.deep_view(),
        }
    }
}

impl DeepView for PreflightReport {
    type V = PreflightReportValue;

    open spec fn deep_view(&self) -> PreflightReportValue {
        self@
    }
}

/// One step of a running batch.
#[derive(Debug)]
pub enum ExecEvent {
    PreflightDone(PreflightReport),
    ActionStarted(usize),
    ActionDone(usize, Result<String, String>),
    Executed { cancelled: Vec<PlannedAction> },
    Verifying,
    Finished { summary: String, audit_path: Option<FilePath>, report_json: String },
}

} // verus!
