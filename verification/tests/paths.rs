use macaudit::attribution::paths::{disk_total, from_file_uri, node_at, tree_path, Sized, Sizer};
use macaudit::disk::{Disk, Stat, Want};
use macaudit::fspath::FilePath;
use macaudit::scan::{DirNode, DirTree};

fn path(text: &str) -> FilePath {
    FilePath::from_text(text)
}

#[test]
fn tree_path_strips_the_data_volume_prefix() {
    assert_eq!(
        tree_path(&path("/System/Volumes/Data/Users/dev/proj")),
        path("/Users/dev/proj")
    );
}

#[test]
fn tree_path_maps_var_tmp_etc_to_private() {
    assert_eq!(tree_path(&path("/var/db/timezone")), path("/private/var/db/timezone"));
    assert_eq!(tree_path(&path("/tmp/x")), path("/private/tmp/x"));
    assert_eq!(tree_path(&path("/etc/hosts")), path("/private/etc/hosts"));
    assert_eq!(
        tree_path(&path("/private/var/db/timezone")),
        path("/private/var/db/timezone")
    );
}

#[test]
fn tree_path_does_not_mistake_a_longer_name_for_the_prefix() {
    assert_eq!(tree_path(&path("/variant/x")), path("/variant/x"));
}

#[test]
fn tree_path_strips_a_trailing_dot_git() {
    assert_eq!(tree_path(&path("/Users/dev/proj/.git")), path("/Users/dev/proj"));
}

#[test]
fn tree_path_combines_data_volume_and_dot_git() {
    assert_eq!(
        tree_path(&path("/System/Volumes/Data/Users/dev/proj/.git")),
        path("/Users/dev/proj")
    );
}

#[test]
fn file_uri_is_percent_decoded() {
    assert_eq!(
        from_file_uri("file:///Users/dev/My%20Project"),
        Some(path("/Users/dev/My Project"))
    );
    assert_eq!(from_file_uri("file:///a/b"), Some(path("/a/b")));
    assert_eq!(from_file_uri("https://example.com"), None);
    assert_eq!(from_file_uri("file:///a/%C3%A9"), Some(path("/a/é")));
    assert_eq!(from_file_uri("file:///a/%FF"), Some(path("/a/\u{fffd}")));
}

fn leaf(name: &str, alloc: u64, errors: u64) -> DirNode {
    DirNode {
        name: name.to_string(),
        alloc,
        apparent: alloc,
        files: if alloc > 0 { 1 } else { 0 },
        dirs: 0,
        errors,
        children: Vec::new(),
    }
}

fn tiny_tree(root: &str, children: Vec<DirNode>) -> DirTree {
    let alloc = children.iter().map(|c| c.alloc).sum();
    let files = children.iter().map(|c| c.files).sum();
    let node = DirNode {
        name: root.to_string(),
        alloc,
        apparent: alloc,
        files,
        dirs: children.len() as u64,
        errors: 0,
        children,
    };
    DirTree { root: path(root), bytes: alloc, node, complete: true }
}

#[test]
fn node_at_finds_a_path_in_any_tree_and_none_outside_every_tree() {
    let trees = vec![
        tiny_tree("/a", vec![leaf("x", 100, 0)]),
        tiny_tree("/b", vec![leaf("y", 250, 0)]),
    ];
    assert_eq!(node_at(&trees, &path("/a/x")).map(|n| n.alloc), Some(100));
    assert_eq!(node_at(&trees, &path("/b/y")).map(|n| n.alloc), Some(250));
    assert!(node_at(&trees, &path("/nowhere")).is_none());
}

#[test]
fn bytes_of_finds_a_directory_in_the_tree() {
    let trees = vec![tiny_tree("/home/dev", vec![leaf("proj", 500, 0)])];
    let mut sizer = Sizer::new(&trees);
    let mut disk = Disk::new();
    assert_eq!(sizer.bytes_of(&mut disk, &path("/home/dev/proj")), Sized::Dir(500));
    assert_eq!(sizer.bytes_of(&mut disk, &path("/home/dev")), Sized::Dir(500));
}

#[test]
fn bytes_of_flags_an_unreadable_tree_entry_as_unsized() {
    let trees = vec![tiny_tree("/home/dev", vec![leaf("locked", 0, 3)])];
    let mut sizer = Sizer::new(&trees);
    assert_eq!(sizer.bytes_of(&mut Disk::new(), &path("/home/dev/locked")), Sized::Unsized);
}

#[test]
fn bytes_of_falls_back_to_lstat_for_a_file_outside_every_tree() {
    let trees = Vec::new();
    let mut disk = Disk::new();
    disk.sizes.set(path("/opt/file"), Some(12288));
    let mut sizer = Sizer::new(&trees);
    match sizer.bytes_of(&mut disk, &path("/opt/file")) {
        Sized::File(bytes) => assert!(bytes >= 9000, "expected at least the file's own bytes"),
        other => panic!("expected File(_), got {other:?}"),
    }
}

#[test]
fn bytes_of_flags_a_dir_missing_from_every_tree_as_unsized() {
    let trees = Vec::new();
    let mut disk = Disk::new();
    disk.stats.set(path("/opt/dir"), Stat::Dir);
    disk.sizes.set(path("/opt/dir"), None);
    let mut sizer = Sizer::new(&trees);
    assert_eq!(sizer.bytes_of(&mut disk, &path("/opt/dir")), Sized::Unsized);
}

#[test]
fn bytes_of_flags_a_missing_path_as_unsized() {
    let trees = Vec::new();
    let mut sizer = Sizer::new(&trees);
    assert_eq!(
        sizer.bytes_of(&mut Disk::new(), &path("/definitely/not/a/real/path")),
        Sized::Unsized
    );
}

#[test]
fn bytes_of_is_memoised() {
    let trees = Vec::new();
    let mut disk = Disk::new();
    let mut sizer = Sizer::new(&trees);
    assert_eq!(sizer.bytes_of(&mut disk, &path("/home/dev/proj")), Sized::Unsized);
    assert_eq!(disk.wanted.len(), 1);
    assert!(matches!(&disk.wanted[0], Want::Size(p) if *p == path("/home/dev/proj")));
    assert_eq!(sizer.bytes_of(&mut disk, &path("/home/dev/proj")), Sized::Unsized);
    assert_eq!(disk.wanted.len(), 1);
}

#[test]
fn disk_total_sums_every_tree() {
    let a = tiny_tree("/a", vec![leaf("x", 100, 0)]);
    let b = tiny_tree("/b", vec![leaf("y", 250, 0)]);
    assert_eq!(disk_total(&vec![a, b]), 350);
}

#[test]
fn paths_are_compared_component_by_component() {
    assert_eq!(path("/a//b/./c").text(), "/a/b/c");
    assert_eq!(path("./a").text(), "./a");
    assert!(path("/a/b").under(&path("/a")));
    assert!(!path("/ab").under(&path("/a")));
    assert!(path("/a/b").before(&path("/a-b")));
    assert_eq!(path("/a").child("/b"), path("/b"));
    assert_eq!(path("/a/b").parent(), Some(path("/a")));
    assert_eq!(path("/").parent(), None);
}
