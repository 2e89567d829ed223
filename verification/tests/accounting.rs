use macaudit::attribution::accounting::{account, account_if_it_fits};
use macaudit::attribution::model::{
    AgentNames, Axis, Claim, EntryKind, EvidenceTier, Footprint, FootprintEntry, FootprintSet, ResolveEnv,
    BASELINE_OWNER, UNATTRIBUTED_OWNER,
};
use macaudit::attribution::paths;
use macaudit::disk::{Disk, Stat};
use macaudit::fspath::FilePath;
use macaudit::scan::FindingId;

const AGENT: AgentNames = AgentNames {
    cli_cache_id: "clyde-cli-cache",
    sessions_id: "clyde-sessions",
    title: "Clyde",
    home_dir: ".clyde",
    sessions_root: "~/.clyde/projects",
    state_pattern: "~/.clyde/*",
    session_evidence: "Clyde session cwd",
    sessions_label: "Clyde sessions",
    cli_cache_label: "Clyde CLI cache",
    state_evidence: "Clyde state",
    cli_cache: "clyde-cli-nodejs",
    tool_owner: "tool:clyde",
    tool_reason: "the cache dir name doesn't match the tool name",
};

fn path(text: &str) -> FilePath {
    FilePath::from_text(text)
}

fn env() -> ResolveEnv {
    ResolveEnv::new(path("/tmp/macaudit-accounting-test-home"), Vec::new(), Vec::new(), AGENT)
}

fn accounted(claims: Vec<Claim>) -> FootprintSet {
    account(claims, &Vec::new(), &env(), &mut Disk::new(), Axis::Projects)
}

fn claim(at: &str, owner: &str, kind: EntryKind, raw_bytes: u64) -> Claim {
    Claim::new(path(at), owner, kind, EvidenceTier::Exact, "test").raw_bytes_override(raw_bytes)
}

fn find_entry<'a>(set: &'a FootprintSet, at: &str) -> &'a FootprintEntry {
    let wanted = path(at);
    set.footprints
        .iter()
        .flat_map(|f| f.groups.iter())
        .flat_map(|g| g.entries.iter())
        .find(|e| e.path == wanted)
        .unwrap()
}

fn footprint<'a>(set: &'a FootprintSet, owner_key: &str) -> &'a Footprint {
    set.footprints.iter().find(|f| f.owner.key == owner_key).unwrap()
}

#[test]
fn nesting_three_distinct_owners_no_negative_no_double_subtraction() {
    let set = accounted(vec![
        claim("/root/a", "proj-a", EntryKind::WorkingTree, 300),
        claim("/root/a/b", "proj-b", EntryKind::WorkingTree, 150),
        claim("/root/a/b/c", "proj-c", EntryKind::WorkingTree, 50),
    ]);

    assert_eq!(find_entry(&set, "/root/a").bytes, 150);
    assert_eq!(find_entry(&set, "/root/a/b").bytes, 100);
    assert_eq!(find_entry(&set, "/root/a/b/c").bytes, 50);
    assert_eq!(footprint(&set, "proj-a").exclusive, 150);
    assert_eq!(footprint(&set, "proj-b").exclusive, 100);
    assert_eq!(footprint(&set, "proj-c").exclusive, 50);
    assert_eq!(set.attributed_total, 300);
}

#[test]
fn nesting_same_owner_at_top_and_bottom_of_a_different_middle_owner() {
    let set = accounted(vec![
        claim("/root/a", "p", EntryKind::WorkingTree, 300),
        claim("/root/a/b", "q", EntryKind::WorkingTree, 150),
        claim("/root/a/b/c", "p", EntryKind::WorkingTree, 50),
    ]);

    assert_eq!(find_entry(&set, "/root/a").bytes, 150);
    assert_eq!(find_entry(&set, "/root/a/b").bytes, 100);
    assert_eq!(find_entry(&set, "/root/a/b/c").bytes, 50);
    assert_eq!(find_entry(&set, "/root/a/b/c").owners, vec!["p".to_string()]);
    assert_eq!(find_entry(&set, "/root/a/b").owners, vec!["q".to_string()]);
    assert_eq!(footprint(&set, "p").exclusive, 150 + 50);
    assert_eq!(footprint(&set, "q").exclusive, 100);
}

#[test]
fn same_owner_breakdown_keeps_both_entries_and_the_artifact_finding() {
    let set = accounted(vec![
        claim("/root/proj", "p", EntryKind::WorkingTree, 1000),
        Claim::new(
            path("/root/proj/node_modules"),
            "p",
            EntryKind::Artifacts,
            EvidenceTier::Exact,
            "node_modules",
        )
        .raw_bytes_override(400)
        .finding(FindingId(42)),
    ]);

    assert_eq!(find_entry(&set, "/root/proj").bytes, 600);
    let artifacts = find_entry(&set, "/root/proj/node_modules");
    assert_eq!(artifacts.bytes, 400);
    assert_eq!(artifacts.finding, Some(FindingId(42)));
    let fp = footprint(&set, "p");
    assert_eq!(fp.exclusive, 1000);
    assert_eq!(fp.groups.len(), 2);
}

#[test]
fn shared_remainder_goes_to_the_first_owner_so_shares_sum_exactly() {
    let set = accounted(vec![
        claim("/root/shared", "p1", EntryKind::PackageCache, 10),
        claim("/root/shared", "p2", EntryKind::PackageCache, 10),
        claim("/root/shared", "p3", EntryKind::PackageCache, 10),
    ]);

    let p1 = footprint(&set, "p1").shared;
    let p2 = footprint(&set, "p2").shared;
    let p3 = footprint(&set, "p3").shared;
    assert_eq!(p1 + p2 + p3, 10);
    assert_eq!(p1, 4);
    assert_eq!(p2, 3);
    assert_eq!(p3, 3);
}

fn rust_claim(at: &str, owner: &str) -> Claim {
    Claim::new(path(at), owner, EntryKind::PackageCache, EvidenceTier::Exact, "Cargo.lock")
        .raw_bytes_override(1)
        .ecosystem("rust")
}

#[test]
fn ecosystem_pass_baseline_claim_is_shared_by_tagged_owners_only() {
    let set = accounted(vec![
        rust_claim("/registry/serde", "proj-a"),
        rust_claim("/registry/tokio", "proj-b"),
        Claim::new(
            path("/root/c"),
            "proj-c",
            EntryKind::WorkingTree,
            EvidenceTier::Exact,
            "root",
        )
        .raw_bytes_override(1),
        Claim::new(
            path("/toolchains/stable"),
            BASELINE_OWNER,
            EntryKind::Toolchain,
            EvidenceTier::EcosystemDefault,
            "default toolchain",
        )
        .raw_bytes_override(100)
        .baseline("rust"),
    ]);

    assert_eq!(footprint(&set, "proj-a").baseline_share, 50);
    assert_eq!(footprint(&set, "proj-b").baseline_share, 50);
    assert_eq!(footprint(&set, "proj-c").baseline_share, 0);
    assert!(set.footprints.iter().all(|f| f.owner.key != BASELINE_OWNER));
    assert_eq!(set.baseline.len(), 1);
    assert!(set.baseline[0].owners.is_empty());
}

#[test]
fn baseline_share_divides_by_the_ecosystems_owner_count() {
    let root = |at: &str, owner: &str| {
        Claim::new(path(at), owner, EntryKind::WorkingTree, EvidenceTier::Exact, "root")
            .raw_bytes_override(1)
    };
    let toolchain = |owner: &str| {
        Claim::new(
            path("/toolchains/rust"),
            owner,
            EntryKind::Toolchain,
            EvidenceTier::EcosystemDefault,
            "default toolchain",
        )
        .raw_bytes_override(100)
        .baseline("rust")
    };
    let set = accounted(vec![
        root("/root/a", "proj-a"),
        root("/root/b", "proj-b"),
        toolchain("proj-a"),
        toolchain("proj-b"),
    ]);

    assert_eq!(footprint(&set, "proj-a").baseline_share, 50);
    assert_eq!(footprint(&set, "proj-b").baseline_share, 50);
    assert_eq!(footprint(&set, "proj-a").reach, 1 + 100);
    assert_eq!(set.baseline.len(), 1);
    assert_eq!(set.baseline[0].bytes, 100);
    assert_eq!(footprint(&set, "proj-a").exclusive, 1);
    assert_eq!(footprint(&set, "proj-a").shared, 0);
}

#[test]
fn n_eco_zero_leaves_the_entry_whole_in_baseline() {
    let mut untagged = Claim::new(
        path("/toolchains/mystery"),
        "proj-a",
        EntryKind::Toolchain,
        EvidenceTier::EcosystemDefault,
        "orphaned baseline tag",
    )
    .raw_bytes_override(64);
    untagged.baseline = true;
    untagged.ecosystem = None;

    let set = accounted(vec![untagged]);

    assert_eq!(set.baseline.len(), 1);
    assert_eq!(set.baseline[0].bytes, 64);
    assert_eq!(footprint(&set, "proj-a").baseline_share, 0);
}

#[test]
fn clone_of_store_counts_in_reach_not_exclusive() {
    let set = accounted(vec![Claim::new(
        path("/root/proj/node_modules/.pnpm"),
        "p",
        EntryKind::PackageCache,
        EvidenceTier::Exact,
        "pnpm clone",
    )
    .raw_bytes_override(500)
    .clone_of_store()]);

    let fp = footprint(&set, "p");
    assert_eq!(fp.exclusive, 0);
    assert_eq!(fp.shared, 0);
    assert_eq!(fp.reach, 500);
    assert!(fp.clone_note);
}

#[test]
fn virtual_bytes_are_not_in_attributed_total() {
    let set = accounted(vec![Claim::new(
        path("/docker/image"),
        "p",
        EntryKind::Docker,
        EvidenceTier::Exact,
        "docker image",
    )
    .raw_bytes_override(1_000)
    .virtual_bytes()]);

    assert_eq!(set.attributed_total, 0);
    let fp = footprint(&set, "p");
    assert_eq!(fp.exclusive, 0);
    assert_eq!(fp.reach, 1_000);
}

#[test]
fn unattributed_claim_gets_a_reason_and_no_footprint() {
    let set = accounted(vec![Claim::new(
        path("/Library/Caches/orphan"),
        UNATTRIBUTED_OWNER,
        EntryKind::Cache,
        EvidenceTier::Curated,
        "no owner matched `orphan`",
    )
    .raw_bytes_override(10)]);

    assert!(set.footprints.is_empty());
    assert_eq!(set.unattributed.len(), 1);
    assert_eq!(set.unattributed[0].reason.as_deref(), Some("no owner matched `orphan`"));
}

#[test]
fn file_claim_is_sized_via_lstat() {
    let at = "/tmp/registry/serde.crate";
    let mut disk = Disk::new();
    disk.sizes.set(paths::tree_path(&path(at)), Some(20_480));
    let claims = vec![Claim::new(
        path(at),
        "p",
        EntryKind::PackageCache,
        EvidenceTier::Exact,
        "a .crate file",
    )];
    let set = account(claims, &Vec::new(), &env(), &mut disk, Axis::Projects);
    let entry = find_entry(&set, &paths::tree_path(&path(at)).text());
    assert!(!entry.is_unsized);
    assert!(entry.bytes >= 20_000);
}

#[test]
fn unsized_dir_is_flagged() {
    let at = "/tmp/unwalked";
    let mut disk = Disk::new();
    disk.stats.set(path(at), Stat::Dir);
    let claims = vec![Claim::new(
        path(at),
        "p",
        EntryKind::Other,
        EvidenceTier::Observed,
        "a dir no tree reached",
    )];
    let set = account(claims, &Vec::new(), &env(), &mut disk, Axis::Projects);
    let entry = find_entry(&set, &paths::tree_path(&path(at)).text());
    assert!(entry.is_unsized);
    assert_eq!(entry.bytes, 0);
}

#[test]
fn empty_claims_yield_an_empty_set_for_the_requested_axis() {
    let set = account(Vec::new(), &Vec::new(), &env(), &mut Disk::new(), Axis::AppStorage);
    assert_eq!(set.axis, Axis::AppStorage);
    assert!(set.footprints.is_empty());
    assert_eq!(set.disk_total, 0);
}

#[test]
fn claims_that_measure_more_than_a_number_holds_are_not_accounted() {
    let claims = vec![
        claim("/root/a", "p", EntryKind::WorkingTree, u64::MAX),
        claim("/root/b", "p", EntryKind::WorkingTree, 1),
    ];
    let set = account_if_it_fits(claims, &Vec::new(), &env(), &mut Disk::new(), Axis::Projects);
    assert!(set.is_none());
    let claims = vec![claim("/root/a", "p", EntryKind::WorkingTree, u64::MAX)];
    let set = account_if_it_fits(claims, &Vec::new(), &env(), &mut Disk::new(), Axis::Projects);
    assert_eq!(set.unwrap().attributed_total, u64::MAX);
}

#[test]
fn the_order_of_the_claims_does_not_change_what_each_owner_gets() {
    let claims = vec![
        claim("/root/a", "p", EntryKind::WorkingTree, 300),
        claim("/root/a/b", "q", EntryKind::WorkingTree, 150),
        claim("/root/shared", "p", EntryKind::PackageCache, 11),
        claim("/root/shared", "q", EntryKind::PackageCache, 11),
    ];
    let mut reversed = claims.clone();
    reversed.reverse();
    let a = accounted(claims);
    let b = accounted(reversed);
    for owner in ["p", "q"] {
        assert_eq!(footprint(&a, owner).exclusive, footprint(&b, owner).exclusive);
        assert_eq!(footprint(&a, owner).shared, footprint(&b, owner).shared);
        assert_eq!(footprint(&a, owner).reach, footprint(&b, owner).reach);
    }
    assert_eq!(footprint(&a, "p").shared, 6);
    assert_eq!(footprint(&a, "q").shared, 5);
    assert_eq!(a.attributed_total, 311);
}

#[test]
fn a_claim_of_nobody_is_listed_beside_the_owners_row() {
    let claims = vec![
        Claim::new(path("/x"), "p", EntryKind::Cache, EvidenceTier::Exact, "e").raw_bytes_override(10),
        Claim::new(
            path("/x"),
            UNATTRIBUTED_OWNER,
            EntryKind::Cache,
            EvidenceTier::Curated,
            "no owner matched `x`",
        )
        .raw_bytes_override(10),
    ];
    let set = account(claims, &Vec::new(), &env(), &mut Disk::new(), Axis::AppStorage);
    assert_eq!(set.unattributed.len(), 1);
    assert_eq!(set.unattributed[0].path, path("/x"));
    assert_eq!(set.unattributed[0].reason.as_deref(), Some("no owner matched `x`"));
    assert_eq!(set.footprints.len(), 1);
    let row = footprint(&set, "p");
    assert_eq!((row.exclusive, row.shared), (10, 0));
    assert_eq!(find_entry(&set, "/x").owners, vec!["p".to_string()]);
    assert_eq!(find_entry(&set, "/x").reason, None);
    assert_eq!(set.attributed_total, 10);
}

#[test]
fn rows_of_plain_claims_own_all_that_is_attributed() {
    let set = accounted(vec![
        claim("/a", "p", EntryKind::Cache, 11),
        claim("/a", "q", EntryKind::Cache, 11),
        claim("/a/b", "q", EntryKind::Cache, 4),
        claim("/c", "r", EntryKind::Cache, 5),
    ]);
    let owned: u64 = set.footprints.iter().map(|f| f.exclusive + f.shared).sum();
    assert_eq!(owned, set.attributed_total);
    assert_eq!(owned, 16);
}

#[test]
fn an_ecosystem_is_not_shared_with_nobody() {
    let set = accounted(vec![
        claim("/store", BASELINE_OWNER, EntryKind::Cache, 10).baseline("rust"),
        claim("/a", "p", EntryKind::Cache, 1).ecosystem("rust"),
        claim("/b", UNATTRIBUTED_OWNER, EntryKind::Cache, 1).ecosystem("rust"),
    ]);
    assert_eq!(footprint(&set, "p").baseline_share, 10);
}
