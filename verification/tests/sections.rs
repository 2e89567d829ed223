use macaudit::attribution::bus::ScanBus;
use macaudit::doc::Doc;
use macaudit::fspath::FilePath;
use macaudit::scan::{
    DirNode, DirTree, Finding, FindingId, FindingKind, ScanEvent, ScannerId, Severity,
};

fn finding(path: &str) -> Finding {
    Finding {
        id: FindingId::new(FindingKind::DiskCategory, path),
        kind: FindingKind::DiskCategory,
        section: ScannerId::Fs,
        group: String::new(),
        title: path.to_string(),
        detail: String::new(),
        path: Some(FilePath::from_text(path)),
        size_bytes: None,
        last_used: None,
        severity: Severity::Info,
        remedies: Vec::new(),
        provenance: None,
        coverage: None,
        meta: Doc::Null,
    }
}

fn finding_event(scanner: ScannerId, gen: u64, path: &str) -> ScanEvent {
    ScanEvent::Finding { scanner, gen, finding: finding(path) }
}

fn finished_event(scanner: ScannerId, gen: u64) -> ScanEvent {
    ScanEvent::Finished { scanner, gen, duration_ms: 1 }
}

#[test]
fn waiter_registered_before_started_still_waits_for_finished() {
    let mut bus = ScanBus::new();
    bus.begin(1, &[ScannerId::Fs]);
    assert!(!bus.ready(&[ScannerId::Fs], 1));

    bus.observe(&ScanEvent::Started { scanner: ScannerId::Fs, gen: 1 }, false);
    assert!(!bus.ready(&[ScannerId::Fs], 1), "Started alone must not resolve the wait");

    assert!(!bus.observe(&finding_event(ScannerId::Fs, 1, "/a"), false));
    assert!(bus.observe(&finished_event(ScannerId::Fs, 1), false));

    assert!(bus.ready(&[ScannerId::Fs], 1));
    let result = bus.snapshots(&[ScannerId::Fs]);
    assert_eq!(result[0].0, ScannerId::Fs);
    assert_eq!(result[0].1.findings.len(), 1);
}

#[test]
fn cancelled_finished_is_not_published_but_still_wakes_waiters() {
    let mut bus = ScanBus::new();
    bus.begin(1, &[ScannerId::Fs]);
    bus.observe(&finding_event(ScannerId::Fs, 1, "/a"), false);
    bus.observe(&finished_event(ScannerId::Fs, 1), false);
    assert!(bus.ready(&[ScannerId::Fs], 1));
    assert_eq!(bus.snapshots(&[ScannerId::Fs])[0].1.findings.len(), 1);

    bus.begin(2, &[ScannerId::Fs]);
    bus.observe(&finding_event(ScannerId::Fs, 2, "/b"), false);
    assert!(!bus.ready(&[ScannerId::Fs], 2));
    let wake = bus.observe(&finished_event(ScannerId::Fs, 2), true);

    assert!(wake, "cancelled Finished must still wake waiters");
    assert!(bus.ready(&[ScannerId::Fs], 2));
    let second = bus.snapshots(&[ScannerId::Fs]);
    assert_eq!(
        second[0].1.gen, 1,
        "cancelled run must not publish; previous snapshot kept"
    );
    assert_eq!(second[0].1.findings.len(), 1);
}

#[test]
fn finished_with_stale_gen_is_ignored() {
    let mut bus = ScanBus::new();
    bus.begin(1, &[ScannerId::Fs]);
    bus.begin(2, &[ScannerId::Fs]);

    let wake = bus.observe(&finished_event(ScannerId::Fs, 1), false);
    assert!(!wake);
    assert!(
        !bus.ready(&[ScannerId::Fs], 2),
        "stale gen 1 Finished must not satisfy gen 2's wait"
    );

    bus.observe(&finished_event(ScannerId::Fs, 2), false);
    assert!(
        bus.ready(&[ScannerId::Fs], 2),
        "the correct-gen Finished must resolve the wait"
    );
}

#[test]
fn wait_for_never_registered_section_returns_immediately_without_it() {
    let mut bus = ScanBus::new();
    bus.begin(1, &[ScannerId::Fs]);

    assert!(
        bus.ready(&[ScannerId::Docker], 1),
        "an unregistered section must resolve immediately"
    );
    assert!(bus.snapshots(&[ScannerId::Docker]).is_empty());
}

#[test]
fn cancel_all_wakes_waiters() {
    let mut bus = ScanBus::new();
    bus.begin(1, &[ScannerId::Fs]);
    assert!(!bus.ready(&[ScannerId::Fs], 1));
    bus.cancel_all();

    assert!(bus.ready(&[ScannerId::Fs], 1), "cancel_all must wake waiters");
    assert!(
        bus.snapshots(&[ScannerId::Fs]).is_empty(),
        "no Finished ever arrived — no snapshot"
    );
}

#[test]
fn detached_bus_resolves_every_wait_immediately_and_empty() {
    let bus = ScanBus::detached();
    assert!(
        bus.ready(&[ScannerId::Fs, ScannerId::Git], 1),
        "a detached bus must never block a waiter"
    );
    assert!(bus.snapshots(&[ScannerId::Fs, ScannerId::Git]).is_empty());
}

#[test]
fn a_failed_scan_wakes_and_publishes_nothing() {
    let mut bus = ScanBus::new();
    bus.begin(1, &[ScannerId::Git]);
    bus.observe(&finding_event(ScannerId::Git, 1, "/a"), false);
    let failed = ScanEvent::Failed {
        scanner: ScannerId::Git,
        gen: 1,
        error: "no git".to_string(),
    };
    assert!(bus.observe(&failed, false));
    assert!(bus.ready(&[ScannerId::Git], 1));
    assert!(bus.snapshots(&[ScannerId::Git]).is_empty());
}

#[test]
fn walked_trees_are_published_with_the_findings() {
    let node = DirNode {
        name: "/a".to_string(),
        alloc: 7,
        apparent: 7,
        files: 1,
        dirs: 0,
        errors: 0,
        children: Vec::new(),
    };
    let tree = DirTree { root: FilePath::from_text("/a"), node, bytes: 7, complete: true };
    let mut bus = ScanBus::new();
    bus.begin(3, &[ScannerId::Fs, ScannerId::Git]);
    bus.observe(&ScanEvent::DirTree { scanner: ScannerId::Fs, gen: 3, tree }, false);
    bus.observe(&finished_event(ScannerId::Fs, 3), false);
    assert!(!bus.ready(&[ScannerId::Fs, ScannerId::Git], 3));
    let got = bus.snapshots(&[ScannerId::Git, ScannerId::Fs]);
    assert_eq!(got.len(), 1);
    assert_eq!(got[0].1.gen, 3);
    assert_eq!(got[0].1.dir_trees[0].bytes, 7);
}
