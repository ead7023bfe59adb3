use dirscan::builder::build_scan;
use dirscan::entry::{entries_ok, Entry, Warning};
use dirscan::node::{ErrorKind, FileNode, NodeKind};

fn entry(path: &str, name: &str, depth: usize, kind: NodeKind, info: Result<u64, ErrorKind>) -> Entry {
    Entry { path: path.to_owned(), name: name.to_owned(), depth, kind, info }
}

fn root_entry(name: &str) -> Entry {
    entry("", name, 0, NodeKind::Directory, Ok(0))
}

fn children(node: &FileNode) -> &Vec<FileNode> {
    node.children.as_ref().expect("directory node must carry children")
}

#[test]
fn single_file_scan() {
    let entries = vec![
        root_entry("root"),
        entry("a.txt", "a.txt", 1, NodeKind::File, Ok(10)),
    ];
    let (tree, warnings) = build_scan(&entries).expect("well-formed walk");
    assert_eq!(tree.name, "root");
    assert_eq!(tree.kind, NodeKind::Directory);
    assert_eq!(tree.size, 10);
    let kids = children(&tree);
    assert_eq!(kids.len(), 1);
    assert_eq!(kids[0].name, "a.txt");
    assert_eq!(kids[0].kind, NodeKind::File);
    assert_eq!(kids[0].size, 10);
    assert!(kids[0].children.is_none());
    assert!(warnings.is_empty());
}

#[test]
fn empty_directory_scan() {
    let entries = vec![root_entry("root")];
    let (tree, warnings) = build_scan(&entries).expect("well-formed walk");
    assert_eq!(tree.name, "root");
    assert_eq!(tree.kind, NodeKind::Directory);
    assert_eq!(tree.size, 0);
    assert!(children(&tree).is_empty());
    assert!(warnings.is_empty());
}

#[test]
fn permission_denied_subdirectory() {
    let entries = vec![
        root_entry("root"),
        entry("locked", "locked", 1, NodeKind::Directory, Err(ErrorKind::PermissionDenied)),
        entry("a.txt", "a.txt", 1, NodeKind::File, Ok(5)),
    ];
    let (tree, warnings) = build_scan(&entries).expect("well-formed walk");
    assert_eq!(tree.size, 5);
    assert_eq!(warnings.len(), 1);
    assert_eq!(warnings[0].path, "locked");
    assert_eq!(warnings[0].reason, ErrorKind::PermissionDenied);
    let kids = children(&tree);
    assert_eq!(kids.len(), 2);
    let locked = kids.iter().find(|c| c.name == "locked").unwrap();
    assert_eq!(locked.kind, NodeKind::Directory);
    assert_eq!(locked.size, 0);
    assert!(children(locked).is_empty());
}

#[test]
fn symlink_cycle_warns_and_rest_aggregates() {
    let entries = vec![
        root_entry("a"),
        entry("a/b", "b", 1, NodeKind::Symlink, Err(ErrorKind::CycleDetected)),
        entry("a/c.txt", "c.txt", 1, NodeKind::File, Ok(7)),
    ];
    let (tree, warnings) = build_scan(&entries).expect("well-formed walk");
    assert_eq!(tree.size, 7);
    assert_eq!(warnings.len(), 1);
    assert_eq!(warnings[0].path, "a/b");
    assert_eq!(warnings[0].reason, ErrorKind::CycleDetected);
    let cyc = children(&tree).iter().find(|c| c.name == "b").unwrap();
    assert_eq!(cyc.kind, NodeKind::Symlink);
    assert_eq!(cyc.size, 0);
    assert!(cyc.children.is_none());
}

#[test]
fn children_sorted_by_name() {
    let entries = vec![
        root_entry("root"),
        entry("b", "b", 1, NodeKind::File, Ok(1)),
        entry("a", "a", 1, NodeKind::File, Ok(2)),
        entry("c", "c", 1, NodeKind::File, Ok(3)),
    ];
    let (tree, warnings) = build_scan(&entries).expect("well-formed walk");
    let names: Vec<&str> = children(&tree).iter().map(|c| c.name.as_str()).collect();
    assert_eq!(names, vec!["a", "b", "c"]);
    assert_eq!(tree.size, 6);
    assert!(warnings.is_empty());
}

#[test]
fn nested_directory_sizes_aggregate_bottom_up() {
    let entries = vec![
        root_entry("root"),
        entry("sub", "sub", 1, NodeKind::Directory, Ok(0)),
        entry("sub/x", "x", 2, NodeKind::File, Ok(4)),
        entry("sub/y", "y", 2, NodeKind::File, Ok(6)),
        entry("z", "z", 1, NodeKind::File, Ok(5)),
    ];
    let (tree, warnings) = build_scan(&entries).expect("well-formed walk");
    assert_eq!(tree.size, 15);
    let sub = children(&tree).iter().find(|c| c.name == "sub").unwrap();
    assert_eq!(sub.size, 10);
    assert_eq!(children(sub).len(), 2);
    // every directory's size is the sum of its children's sizes
    let child_sum: u64 = children(&tree).iter().map(|c| c.size).sum();
    assert_eq!(tree.size, child_sum);
    let sub_sum: u64 = children(sub).iter().map(|c| c.size).sum();
    assert_eq!(sub.size, sub_sum);
    assert!(warnings.is_empty());
}

#[test]
fn depth_truncated_directory_contributes_zero() {
    let entries = vec![
        root_entry("root"),
        entry("deep", "deep", 1, NodeKind::Directory, Err(ErrorKind::DepthTruncated)),
        entry("f", "f", 1, NodeKind::File, Ok(9)),
    ];
    let (tree, warnings) = build_scan(&entries).expect("well-formed walk");
    assert_eq!(tree.size, 9);
    assert_eq!(warnings.len(), 1);
    assert_eq!(warnings[0].reason, ErrorKind::DepthTruncated);
    let deep = children(&tree).iter().find(|c| c.name == "deep").unwrap();
    assert_eq!(deep.size, 0);
    assert!(children(deep).is_empty());
}

#[test]
fn every_recoverable_error_becomes_a_warning() {
    let kinds = [
        ErrorKind::PermissionDenied,
        ErrorKind::CycleDetected,
        ErrorKind::IoError,
        ErrorKind::DepthTruncated,
    ];
    let mut entries = vec![root_entry("root")];
    for (i, k) in kinds.iter().enumerate() {
        let name = format!("e{}", i);
        entries.push(entry(&name, &name, 1, NodeKind::File, Err(*k)));
    }
    let (tree, warnings) = build_scan(&entries).expect("well-formed walk");
    assert_eq!(tree.size, 0);
    assert_eq!(warnings.len(), kinds.len());
    for (i, k) in kinds.iter().enumerate() {
        let w: &Warning = &warnings[i];
        assert_eq!(w.path, format!("e{}", i));
        assert_eq!(w.reason, *k);
    }
}

#[test]
fn malformed_walks_are_rejected() {
    // no entries at all
    assert!(build_scan(&vec![]).is_none());
    // root is not a directory
    assert!(build_scan(&vec![entry("r", "r", 0, NodeKind::File, Ok(1))]).is_none());
    // depth jumps by two
    let jump = vec![
        root_entry("root"),
        entry("x", "x", 2, NodeKind::File, Ok(1)),
    ];
    assert!(build_scan(&jump).is_none());
    // a step down after a plain file
    let after_file = vec![
        root_entry("root"),
        entry("f", "f", 1, NodeKind::File, Ok(1)),
        entry("f/g", "g", 2, NodeKind::File, Ok(1)),
    ];
    assert!(build_scan(&after_file).is_none());
    // an empty name
    let unnamed = vec![root_entry("root"), entry("x", "", 1, NodeKind::File, Ok(1))];
    assert!(build_scan(&unnamed).is_none());
    // the total size does not fit a byte count
    let huge = vec![
        root_entry("root"),
        entry("a", "a", 1, NodeKind::File, Ok(u64::MAX)),
        entry("b", "b", 1, NodeKind::File, Ok(1)),
    ];
    assert!(!entries_ok(&huge));
    assert!(build_scan(&huge).is_none());
}

#[test]
fn entries_ok_accepts_well_formed_walks() {
    let entries = vec![
        root_entry("root"),
        entry("sub", "sub", 1, NodeKind::Directory, Ok(0)),
        entry("sub/x", "x", 2, NodeKind::File, Ok(4)),
        entry("z", "z", 1, NodeKind::File, Ok(5)),
    ];
    assert!(entries_ok(&entries));
}
