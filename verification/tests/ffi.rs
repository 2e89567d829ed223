use macaudit::attribution::model as attrib;
use macaudit::cleanup;
use macaudit::doc::{put_entry, table_doc, text_doc, Doc};
use macaudit::ffi::engine::{
    execution_remedies, select_items, snapshot_refusal, Cleanup, EngineOptions, MacAuditError, Plan,
};
use macaudit::ffi::mapping::{
    sections, Axis, DeleteMode, DirEntry, EntryKind, ExecEvent, Finding, RemedyCommand, ScanEvent,
    SectionId, Selection,
};
use macaudit::ffi::session::{
    enriched_only, find_finding, take_in, Pending, Session, Status, Store, FLUSH_THRESHOLD,
};
use macaudit::fspath::FilePath;
use macaudit::scan;
use macaudit::scan::{DirNodeSummary, FindingId, FindingKind, ScannerId, SectionRow};

fn path(text: &str) -> FilePath {
    FilePath::from_text(text)
}

fn remedy(label: &str, destructive: bool, alternative: bool, command: scan::RemedyCommand) -> scan::Remedy {
    scan::Remedy {
        label: label.to_string(),
        rendered: format!("run {label}"),
        command,
        reclaims_bytes: None,
        destructive,
        alternative,
        guard: None,
    }
}

fn trash(label: &str, at: &str) -> scan::Remedy {
    remedy(label, true, false, scan::RemedyCommand::Trash { path: path(at) })
}

fn show_in_finder(label: &str) -> scan::Remedy {
    remedy(label, false, false, scan::RemedyCommand::RevealInFinder { path: path("/r") })
}

fn shell(label: &str) -> scan::Remedy {
    let command =
        scan::RemedyCommand::Shell { program: "brew".to_string(), args: vec!["x".to_string()] };
    remedy(label, false, false, command)
}

fn found(id: u64, kind: FindingKind, section: ScannerId, remedies: Vec<scan::Remedy>) -> scan::Finding {
    scan::Finding {
        id: FindingId(id),
        kind,
        section,
        group: "group".to_string(),
        title: format!("title {id}"),
        detail: "detail".to_string(),
        path: Some(path("/a/b")),
        size_bytes: Some(10),
        last_used: Some(20),
        severity: scan::Severity::Info,
        remedies,
        provenance: None,
        coverage: Some("full".to_string()),
        meta: Doc::Null,
    }
}

#[test]
fn axis_round_trips_through_ffi_and_back() {
    for axis in attrib::Axis::all() {
        let ffi: Axis = axis.into();
        let back: attrib::Axis = ffi.into();
        assert_eq!(back, axis);
    }
}

#[test]
fn entry_kind_maps_every_core_variant() {
    let mut seen: Vec<EntryKind> = Vec::new();
    for kind in attrib::EntryKind::all() {
        let ffi: EntryKind = kind.into();
        assert!(!seen.contains(&ffi));
        seen.push(ffi);
    }
}

#[test]
fn section_ids_round_trip_over_every_scanner() {
    let mut rows = Vec::new();
    for id in ScannerId::all() {
        let ffi: SectionId = id.into();
        let back: ScannerId = ffi.into();
        assert_eq!(back, id);
        rows.push(SectionRow {
            id,
            title: format!("{id:?} title"),
            short_title: format!("{id:?}"),
            view: scan::ViewKind::Table,
        });
    }
    let metas = sections(&rows);
    assert_eq!(metas.len(), rows.len());
    for (m, r) in metas.iter().zip(&rows) {
        assert_eq!(m.slug, r.id.slug());
        assert_eq!(m.title, r.title);
    }
}

#[test]
fn finding_maps_field_by_field_and_meta_round_trips() {
    let mut guarded = trash("remove", "/a/b");
    guarded.guard = Some("unchanged".to_string());
    let mut source = found(7, FindingKind::GlobalTool, ScannerId::Tools, vec![guarded, show_in_finder("show")]);
    let mut entries: Vec<(String, Doc)> = Vec::new();
    put_entry(&mut entries, "manager", text_doc("npm \"global\""));
    put_entry(&mut entries, "list", Doc::List(vec![Doc::Bool(true), Doc::Null]));
    source.meta = table_doc(entries);
    let ffi = Finding::from(&source);
    assert_eq!(ffi.id, source.id.0);
    assert_eq!(ffi.section, SectionId::Tools);
    assert_eq!(ffi.title, source.title);
    assert_eq!(ffi.detail, source.detail);
    assert_eq!(ffi.path, source.path.as_ref().map(|p| p.text()));
    assert_eq!(ffi.size_bytes, source.size_bytes);
    assert_eq!(ffi.last_used, source.last_used);
    assert_eq!(ffi.group, source.group);
    assert_eq!(ffi.remedies.len(), source.remedies.len());
    for (a, b) in ffi.remedies.iter().zip(&source.remedies) {
        assert_eq!(a.label, b.label);
        assert_eq!(a.rendered, b.rendered);
        assert_eq!(a.destructive, b.destructive);
        assert_eq!(a.alternative, b.alternative);
        assert_eq!(a.has_guard, b.guard.is_some());
    }
    let meta: serde_json::Value = serde_json::from_str(&ffi.meta_json).unwrap();
    assert_eq!(meta["manager"], serde_json::Value::from("npm \"global\""));
    assert_eq!(meta["list"][0], serde_json::Value::from(true));
    assert!(meta["list"][1].is_null());
}

#[test]
fn null_meta_becomes_empty_object() {
    let f = found(1, FindingKind::LargeFile, ScannerId::Fs, Vec::new());
    assert_eq!(Finding::from(&f).meta_json, "{}");
}

#[test]
fn every_remedy_command_variant_maps() {
    let cases = vec![
        scan::RemedyCommand::Trash { path: path("/a b") },
        scan::RemedyCommand::Shell {
            program: "brew".into(),
            args: vec!["uninstall".into(), "x".into()],
        },
        scan::RemedyCommand::RevealInFinder { path: path("/r") },
        scan::RemedyCommand::CopyToClipboard { text: "kill 1".into() },
        scan::RemedyCommand::Probe {
            program: "node".into(),
            args: vec!["--version".into()],
            timeout_secs: 5,
        },
    ];
    for c in cases {
        let ffi = RemedyCommand::from(&c);
        match (&c, &ffi) {
            (scan::RemedyCommand::Trash { path }, RemedyCommand::Trash { path: p }) => assert_eq!(*p, path.text()),
            (scan::RemedyCommand::Shell { program, args }, RemedyCommand::Shell { program: p, args: a }) => {
                assert_eq!((p, a), (program, args))
            }
            (scan::RemedyCommand::RevealInFinder { path }, RemedyCommand::RevealInFinder { path: p }) => {
                assert_eq!(*p, path.text())
            }
            (scan::RemedyCommand::CopyToClipboard { text }, RemedyCommand::CopyToClipboard { text: t }) => {
                assert_eq!(t, text)
            }
            (
                scan::RemedyCommand::Probe { program, args, timeout_secs },
                RemedyCommand::Probe { program: p, args: a, timeout_secs: t },
            ) => assert_eq!((p, a, t), (program, args, timeout_secs)),
            other => panic!("variant changed shape: {other:?}"),
        }
    }
}

#[test]
fn dir_entry_maps_field_by_field() {
    let summary = DirNodeSummary {
        name: "dev".to_string(),
        path: path("/Users/dev/dev"),
        alloc: 45 * 1024 * 1024 * 1024,
        apparent: 45 * 1024 * 1024 * 1024,
        files: 16_210,
        dirs: 2_222,
        errors: 3,
        child_count: 4,
    };
    let entry = DirEntry::from(&summary);
    assert_eq!(entry.path, "/Users/dev/dev");
    assert_eq!(entry.name, "dev");
    assert_eq!(entry.alloc, summary.alloc);
    assert_eq!(entry.apparent, summary.apparent);
    assert_eq!(entry.files, summary.files);
    assert_eq!(entry.dirs, summary.dirs);
    assert_eq!(entry.errors, summary.errors);
    assert!(entry.has_children);

    let mut leaf = summary;
    leaf.child_count = 0;
    assert!(!DirEntry::from(&leaf).has_children);
}

fn started(scanner: ScannerId, gen: u64) -> scan::ScanEvent {
    scan::ScanEvent::Started { scanner, gen }
}

fn finished(scanner: ScannerId, gen: u64) -> scan::ScanEvent {
    scan::ScanEvent::Finished { scanner, gen, duration_ms: 1 }
}

fn finding_event(scanner: ScannerId, gen: u64, id: u64) -> scan::ScanEvent {
    scan::ScanEvent::Finding {
        scanner,
        gen,
        finding: found(id, FindingKind::CacheDir, scanner, vec![trash("remove", "/a/b")]),
    }
}

fn streamed(told: &[ScanEvent], wanted: SectionId) -> Vec<u64> {
    told.iter()
        .filter_map(|e| match e {
            ScanEvent::Findings { section, findings, .. } if *section == wanted => {
                Some(findings.iter().map(|f| f.id))
            }
            _ => None,
        })
        .flatten()
        .collect()
}

#[test]
fn fake_scan_streams_every_section_and_matches_pull() {
    let mut session = Session::new(vec![ScannerId::Apps, ScannerId::Brew]);
    let mut pending = Pending::new();
    let mut store = Store::new();
    let mut told: Vec<ScanEvent> = Vec::new();
    let all = ScannerId::all();
    session.begin_scan(1, &all);
    for (n, id) in all.iter().enumerate() {
        let first = 10 * n as u64;
        let events = vec![
            started(*id, 1),
            finding_event(*id, 1, first + 2),
            finding_event(*id, 1, first + 1),
            finished(*id, 1),
        ];
        for ev in events {
            told.extend(take_in(&mut session, &mut pending, &mut store, ev).told);
        }
    }
    for (n, id) in all.iter().enumerate() {
        let first = 10 * n as u64;
        assert_eq!(streamed(&told, (*id).into()), vec![first + 2, first + 1], "section {}", id.slug());
        let pulled: Vec<u64> = session.section_findings(*id).iter().map(|f| f.id.0).collect();
        assert_eq!(pulled, vec![first + 1, first + 2], "pull for {}", id.slug());
        assert_eq!(session.status_of(*id), Status::Done);
    }
    assert!(session.sections_terminal(&all));
    assert_eq!(session.take_due_correlation(), Some(1));
    assert_eq!(session.take_due_correlation(), None);
}

#[test]
fn plan_uses_engine_rules_and_rejects_unknown_ids() {
    let destructive = found(
        5,
        FindingKind::CacheDir,
        ScannerId::Fs,
        vec![show_in_finder("show"), trash("remove", "/a/b")],
    );
    let current = vec![destructive];
    let items = select_items(&current, &vec![Selection { finding_id: 5, remedy_index: None }]).unwrap();
    assert_eq!(items.len(), 1);
    assert_eq!(items[0].finding_id, FindingId(5));
    assert_eq!(items[0].remedy.rendered, "run remove");
    let report = cleanup::PreflightReport {
        ok: vec![cleanup::PlannedAction {
            finding_id: items[0].finding_id,
            label: items[0].remedy.label.clone(),
            rendered: items[0].remedy.rendered.clone(),
            destructive: true,
            reclaims_bytes: None,
        }],
        refused: Vec::new(),
        removed: Vec::new(),
        remaining: Vec::new(),
        follow_up: Vec::new(),
        brew_preview: None,
    };
    let plan = Plan::new(report, scan::DeleteMode::Trash, vec![ScannerId::Fs]);
    let summary = plan.summary();
    assert_eq!(summary.actions.len(), 1);
    assert_eq!(summary.actions[0].finding_id, 5);
    assert_eq!(summary.actions[0].rendered, "run remove");
    assert_eq!(summary.affected, vec![SectionId::Fs]);
    assert_eq!(summary.delete_mode, DeleteMode::Trash);

    let err = select_items(&current, &vec![Selection { finding_id: 42, remedy_index: None }])
        .err()
        .unwrap();
    assert!(matches!(err, MacAuditError::Invalid(_)));
    let err = select_items(&current, &vec![Selection { finding_id: 5, remedy_index: Some(99) }])
        .err()
        .unwrap();
    assert!(matches!(err, MacAuditError::Invalid(_)));
}

fn plan_of(actions: Vec<cleanup::PlannedAction>, affected: Vec<ScannerId>) -> Plan {
    let report = cleanup::PreflightReport {
        ok: actions,
        refused: Vec::new(),
        removed: Vec::new(),
        remaining: Vec::new(),
        follow_up: Vec::new(),
        brew_preview: None,
    };
    Plan::new(report, scan::DeleteMode::Trash, affected)
}

fn action(id: u64) -> cleanup::PlannedAction {
    cleanup::PlannedAction {
        finding_id: FindingId(id),
        label: "remove".to_string(),
        rendered: "run remove".to_string(),
        destructive: true,
        reclaims_bytes: Some(3),
    }
}

#[test]
fn execute_refuses_empty_plans_and_concurrent_batches() {
    let mut cleanup_slot = Cleanup::new();
    let empty = plan_of(Vec::new(), Vec::new());
    assert!(matches!(cleanup_slot.begin(&empty), Err(MacAuditError::Invalid(_))));

    let plan = plan_of(vec![action(1)], vec![ScannerId::Fs]);
    assert!(cleanup_slot.begin(&plan).is_ok());
    assert!(matches!(cleanup_slot.begin(&plan), Err(MacAuditError::Busy(_))));

    let last = cleanup::ExecEvent::Finished {
        summary: "done".to_string(),
        audit_path: Some(path("/log")),
        report_json: "{}".to_string(),
    };
    let told = cleanup_slot.forward(last, &plan.affected, None);
    assert_eq!(
        told,
        ExecEvent::Finished {
            summary: "done".to_string(),
            report_path: Some("/log".to_string()),
            report_json: "{}".to_string(),
        }
    );
    assert!(cleanup_slot.begin(&plan).is_ok());
}

#[test]
fn a_batch_that_has_run_names_the_sections_that_are_scanned_again() {
    let mut slot = Cleanup::new();
    let plan = plan_of(vec![action(1)], vec![ScannerId::Fs]);
    slot.begin(&plan).unwrap();
    let ran = cleanup::ExecEvent::Executed { cancelled: vec![action(2)] };
    assert!(Cleanup::rescans(&ran, &plan.affected));
    match slot.forward(ran, &plan.affected, Some(9)) {
        ExecEvent::Executed { cancelled, rescanning, rescan_gen } => {
            assert_eq!(cancelled[0].finding_id, 2);
            assert_eq!(rescanning, vec![SectionId::Fs]);
            assert_eq!(rescan_gen, Some(9));
        }
        other => panic!("{other:?}"),
    }
    let done = cleanup::ExecEvent::ActionDone(0, Err("no".to_string()));
    assert!(!Cleanup::rescans(&done, &plan.affected));
    assert_eq!(
        slot.forward(done, &plan.affected, None),
        ExecEvent::ActionDone { index: 0, ok: false, message: "no".to_string() }
    );
    assert!(slot.running);
}

fn labels(remedies: Vec<scan::Remedy>) -> Vec<String> {
    remedies.into_iter().map(|r| r.label).collect()
}

#[test]
fn without_a_choice_all_destructive_remedies_then_a_command_then_the_first_one_run() {
    let all = vec![show_in_finder("a"), trash("b", "/b"), shell("c"), trash("d", "/d")];
    let f = found(1, FindingKind::CacheDir, ScannerId::Fs, all);
    assert_eq!(labels(execution_remedies(&f, None)), vec!["b", "d"]);
    assert_eq!(labels(execution_remedies(&f, Some(2))), vec!["c"]);
    let f = found(1, FindingKind::CacheDir, ScannerId::Fs, vec![show_in_finder("a"), shell("c")]);
    assert_eq!(labels(execution_remedies(&f, None)), vec!["c"]);
    let f = found(1, FindingKind::CacheDir, ScannerId::Fs, vec![show_in_finder("a"), show_in_finder("b")]);
    assert_eq!(labels(execution_remedies(&f, None)), vec!["a"]);
    let f = found(1, FindingKind::CacheDir, ScannerId::Fs, Vec::new());
    assert!(execution_remedies(&f, None).is_empty());
}

#[test]
fn a_superseded_scan_changes_nothing() {
    let mut session = Session::new(Vec::new());
    session.begin_scan(1, &[ScannerId::Fs]);
    session.begin_scan(2, &[ScannerId::Fs]);
    assert!(!session.apply(&finding_event(ScannerId::Fs, 1, 4)));
    assert!(session.section_findings(ScannerId::Fs).is_empty());
    assert!(session.apply(&finding_event(ScannerId::Fs, 2, 4)));
    assert_eq!(session.section_findings(ScannerId::Fs).len(), 1);
    assert_eq!(session.status_of(ScannerId::Git), Status::Idle);
}

#[test]
fn a_failed_section_keeps_a_snapshot_from_being_saved() {
    let mut session = Session::new(Vec::new());
    let both = [ScannerId::Fs, ScannerId::Git];
    session.begin_scan(1, &both);
    assert!(!session.sections_terminal(&both));
    session.apply(&finished(ScannerId::Fs, 1));
    session.apply(&scan::ScanEvent::Failed {
        scanner: ScannerId::Git,
        gen: 1,
        error: "no git".to_string(),
    });
    assert_eq!(session.failed_sections(&both), vec![ScannerId::Git]);
    assert_eq!(session.status_of(ScannerId::Git), Status::Failed("no git".to_string()));
    match snapshot_refusal(&session, &both) {
        Some(e) => assert!(e.message().contains(ScannerId::Git.slug())),
        None => panic!("a failed section must refuse the snapshot"),
    }
    assert!(snapshot_refusal(&session, &[ScannerId::Fs]).is_none());
}

#[test]
fn findings_wait_until_there_are_many() {
    let mut session = Session::new(Vec::new());
    let mut pending = Pending::new();
    let mut store = Store::new();
    session.begin_scan(1, &[ScannerId::Fs]);
    for n in 0..FLUSH_THRESHOLD as u64 {
        let told =
            take_in(&mut session, &mut pending, &mut store, finding_event(ScannerId::Fs, 1, n)).told;
        if n + 1 < FLUSH_THRESHOLD as u64 {
            assert!(told.is_empty());
        } else {
            assert_eq!(streamed(&told, SectionId::Fs).len(), FLUSH_THRESHOLD);
        }
    }
    let ids: Vec<u64> = session.section_findings(ScannerId::Fs).iter().map(|f| f.id.0).collect();
    assert!(ids.windows(2).all(|w| w[0] < w[1]));
}

#[test]
fn findings_are_found_by_their_number() {
    let list = vec![
        found(3, FindingKind::CacheDir, ScannerId::Fs, Vec::new()),
        found(8, FindingKind::CacheDir, ScannerId::Fs, Vec::new()),
    ];
    assert_eq!(find_finding(&list, FindingId(8)).unwrap().title, "title 8");
    assert!(find_finding(&list, FindingId(4)).is_none());
}

#[test]
fn only_findings_that_the_catalog_knows_are_told_as_enriched() {
    let plain = found(1, FindingKind::App, ScannerId::Apps, Vec::new());
    let mut known = found(2, FindingKind::App, ScannerId::Apps, Vec::new());
    let mut entries: Vec<(String, Doc)> = Vec::new();
    put_entry(&mut entries, "available_cask", text_doc("firefox"));
    known.meta = table_doc(entries);
    let told = enriched_only(&vec![plain, known]);
    assert_eq!(told.len(), 1);
    assert_eq!(told[0].id, FindingId(2));
}

#[test]
fn errors_say_what_they_are_about() {
    let text = "x".to_string();
    assert_eq!(MacAuditError::Config(text.clone()).message(), "config: x");
    assert_eq!(MacAuditError::Snapshot(text.clone()).message(), "snapshot: x");
    assert_eq!(MacAuditError::Busy(text.clone()).message(), "busy: x");
    assert_eq!(MacAuditError::Invalid(text).message(), "invalid: x");
}

#[test]
fn options_override_the_configuration() {
    let options = EngineOptions::default();
    assert_eq!(options.delete_mode(scan::DeleteMode::Trash), scan::DeleteMode::Trash);
    assert!(options.uses_network(false));
    assert!(!options.uses_network(true));
    let options = EngineOptions { rm_mode: true, offline: true, ..EngineOptions::default() };
    assert_eq!(options.delete_mode(scan::DeleteMode::Trash), scan::DeleteMode::Rm);
    assert!(!options.uses_network(false));
}
