use dirscan::codec::{
    deserialize_node, deserialize_result, kind_to_text, parse_kind, parse_reason, reason_to_text,
    serialize_node, serialize_result, DocNode, DocWarning, ScanDocument,
};
use dirscan::builder::build_scan;
use dirscan::entry::{Entry, Warning};
use dirscan::node::{ErrorKind, FileNode, NodeKind};
use dirscan::task::{root_check, stop_error, ScanOptions, ScanTask, Status, StopReason};
use dirscan::walker::{classify_walk_error, may_descend, plan_entry};

fn leaf(name: &str, kind: NodeKind, size: u64) -> FileNode {
    FileNode { name: name.to_owned(), kind, size, children: None }
}

fn dir(name: &str, size: u64, children: Vec<FileNode>) -> FileNode {
    FileNode { name: name.to_owned(), kind: NodeKind::Directory, size, children: Some(children) }
}

fn assert_same_tree(a: &FileNode, b: &FileNode) {
    assert_eq!(a.name, b.name);
    assert_eq!(a.kind, b.kind);
    assert_eq!(a.size, b.size);
    match (&a.children, &b.children) {
        (None, None) => {}
        (Some(ca), Some(cb)) => {
            assert_eq!(ca.len(), cb.len());
            for (x, y) in ca.iter().zip(cb.iter()) {
                assert_same_tree(x, y);
            }
        }
        _ => panic!("children present on one side only"),
    }
}

#[test]
fn nonexistent_root_fails_with_invalid_root() {
    // the filesystem reports that the path does not exist
    let check = root_check(false, false);
    assert_eq!(check, Err(ErrorKind::InvalidRoot));
    let mut task = ScanTask::new(ScanOptions::new());
    assert_eq!(task.status(), Status::Pending);
    task.launch(check.is_ok());
    assert_eq!(task.status(), Status::Failed(ErrorKind::InvalidRoot));
    // a file as root is rejected too
    assert_eq!(root_check(true, false), Err(ErrorKind::InvalidRoot));
    assert_eq!(root_check(true, true), Ok(()));
}

#[test]
fn cancellation_is_observed_within_one_step() {
    let mut task = ScanTask::new(ScanOptions::new());
    task.launch(true);
    assert_eq!(task.status(), Status::Running);
    assert_eq!(task.should_stop(0), None);
    task.request_cancel();
    // still Running: cancellation is cooperative
    assert_eq!(task.status(), Status::Running);
    // the very next directory-boundary check reports the stop
    assert_eq!(task.should_stop(0), Some(StopReason::Requested));
    task.mark_cancelled(StopReason::Requested);
    assert_eq!(task.status(), Status::Cancelled(StopReason::Requested));
    // idempotent: no effect once terminal
    task.request_cancel();
    assert_eq!(task.status(), Status::Cancelled(StopReason::Requested));
}

#[test]
fn timeout_behaves_as_cancellation() {
    let options = ScanOptions { follow_symlinks: false, max_depth: None, timeout_ms: Some(100) };
    let mut task = ScanTask::new(options);
    task.launch(true);
    assert_eq!(task.should_stop(99), None);
    assert_eq!(task.should_stop(100), Some(StopReason::TimedOut));
    task.mark_cancelled(StopReason::TimedOut);
    assert_eq!(task.status(), Status::Cancelled(StopReason::TimedOut));
}

#[test]
fn completion_and_failure_are_terminal() {
    let mut done = ScanTask::new(ScanOptions::new());
    done.launch(true);
    done.complete();
    assert_eq!(done.status(), Status::Completed);
    done.request_cancel();
    assert_eq!(done.status(), Status::Completed);

    let mut failed = ScanTask::new(ScanOptions::new());
    failed.launch(true);
    failed.fail(ErrorKind::PermissionDenied);
    assert_eq!(failed.status(), Status::Failed(ErrorKind::PermissionDenied));
}

#[test]
fn kind_texts_round_trip() {
    let kinds = [NodeKind::File, NodeKind::Directory, NodeKind::Symlink, NodeKind::Other];
    for k in kinds {
        let text = kind_to_text(k);
        assert_eq!(parse_kind(&text), Some(k));
    }
    assert_eq!(kind_to_text(NodeKind::File), "file");
    assert_eq!(kind_to_text(NodeKind::Directory), "directory");
    assert_eq!(parse_kind(&"weird".to_owned()), None);
}

#[test]
fn reason_texts_round_trip() {
    let reasons = [
        ErrorKind::InvalidRoot,
        ErrorKind::PermissionDenied,
        ErrorKind::CycleDetected,
        ErrorKind::TimedOut,
        ErrorKind::Cancelled,
        ErrorKind::IoError,
        ErrorKind::DepthTruncated,
    ];
    for r in reasons {
        let text = reason_to_text(r);
        assert_eq!(parse_reason(&text), Some(r));
    }
    assert_eq!(reason_to_text(ErrorKind::PermissionDenied), "permission denied");
    assert_eq!(parse_reason(&"unheard of".to_owned()), None);
}

#[test]
fn document_round_trip_restores_the_tree() {
    let tree = dir(
        "root",
        15,
        vec![
            dir("sub", 10, vec![leaf("x", NodeKind::File, 4), leaf("y", NodeKind::Symlink, 6)]),
            dir("empty", 0, vec![]),
            leaf("z", NodeKind::Other, 5),
        ],
    );
    let reference = dir(
        "root",
        15,
        vec![
            dir("sub", 10, vec![leaf("x", NodeKind::File, 4), leaf("y", NodeKind::Symlink, 6)]),
            dir("empty", 0, vec![]),
            leaf("z", NodeKind::Other, 5),
        ],
    );
    let doc = serialize_node(tree);
    assert_eq!(doc.kind, "directory");
    let back = deserialize_node(doc).expect("a serialized tree deserializes");
    assert_same_tree(&back, &reference);
}

#[test]
fn document_round_trip_keeps_warnings() {
    let tree = dir("root", 0, vec![]);
    let reference = dir("root", 0, vec![]);
    let warnings = vec![
        Warning { path: "locked".to_owned(), reason: ErrorKind::PermissionDenied },
        Warning { path: "a/b".to_owned(), reason: ErrorKind::CycleDetected },
    ];
    let doc = serialize_result(tree, warnings);
    assert_eq!(doc.warnings.len(), 2);
    assert_eq!(doc.warnings[0].path, "locked");
    assert_eq!(doc.warnings[0].reason, "permission denied");
    assert_eq!(doc.warnings[1].reason, "cycle detected");
    let (back, back_warnings) = deserialize_result(doc).expect("a serialized result deserializes");
    assert_same_tree(&back, &reference);
    assert_eq!(back_warnings.len(), 2);
    assert_eq!(back_warnings[0].path, "locked");
    assert_eq!(back_warnings[0].reason, ErrorKind::PermissionDenied);
    assert_eq!(back_warnings[1].path, "a/b");
    assert_eq!(back_warnings[1].reason, ErrorKind::CycleDetected);
}

#[test]
fn unknown_texts_fail_deserialization() {
    let bad_kind = DocNode {
        name: "root".to_owned(),
        kind: "wombat".to_owned(),
        size: 0,
        children: None,
    };
    assert!(deserialize_node(bad_kind).is_none());

    let bad_reason = ScanDocument {
        root: DocNode {
            name: "root".to_owned(),
            kind: "directory".to_owned(),
            size: 0,
            children: Some(vec![]),
        },
        warnings: vec![DocWarning { path: "p".to_owned(), reason: "nonsense".to_owned() }],
    };
    assert!(deserialize_result(bad_reason).is_none());
}

#[test]
fn walker_plans_depth_truncation() {
    let options = ScanOptions { follow_symlinks: false, max_depth: Some(2), timeout_ms: None };
    // a directory at the limit is reported truncated, with its warning
    assert_eq!(
        plan_entry(&options, NodeKind::Directory, 2, Ok(0)),
        Err(ErrorKind::DepthTruncated)
    );
    assert!(!may_descend(&options, NodeKind::Directory, 2, Ok(0)));
    // a directory above the limit is walked normally
    assert_eq!(plan_entry(&options, NodeKind::Directory, 1, Ok(0)), Ok(0));
    assert!(may_descend(&options, NodeKind::Directory, 1, Ok(0)));
    // files are never truncated, and a metadata failure is kept
    assert_eq!(plan_entry(&options, NodeKind::File, 2, Ok(3)), Ok(3));
    assert_eq!(
        plan_entry(&options, NodeKind::File, 1, Err(ErrorKind::IoError)),
        Err(ErrorKind::IoError)
    );
    // an unreadable directory is never descended into
    assert!(!may_descend(&options, NodeKind::Directory, 1, Err(ErrorKind::PermissionDenied)));
    // without a limit nothing is truncated
    let free = ScanOptions::new();
    assert_eq!(plan_entry(&free, NodeKind::Directory, 7, Ok(0)), Ok(0));
    assert!(may_descend(&free, NodeKind::Directory, 7, Ok(0)));
}

#[test]
fn full_pipeline_round_trip() {
    let entries = vec![
        Entry {
            path: String::new(),
            name: "root".to_owned(),
            depth: 0,
            kind: NodeKind::Directory,
            info: Ok(0),
        },
        Entry {
            path: "sub".to_owned(),
            name: "sub".to_owned(),
            depth: 1,
            kind: NodeKind::Directory,
            info: Ok(0),
        },
        Entry {
            path: "sub/a".to_owned(),
            name: "a".to_owned(),
            depth: 2,
            kind: NodeKind::File,
            info: Ok(3),
        },
        Entry {
            path: "locked".to_owned(),
            name: "locked".to_owned(),
            depth: 1,
            kind: NodeKind::Directory,
            info: Err(ErrorKind::PermissionDenied),
        },
    ];
    let (tree, warnings) = build_scan(&entries).expect("well-formed walk");
    let doc = serialize_result(tree, warnings);
    let (back, back_warnings) = deserialize_result(doc).expect("round trip");
    assert_eq!(back.name, "root");
    assert_eq!(back.size, 3);
    let kids = back.children.as_ref().unwrap();
    assert_eq!(kids.len(), 2);
    assert_eq!(kids[0].name, "locked");
    assert_eq!(kids[0].size, 0);
    assert_eq!(kids[1].name, "sub");
    assert_eq!(kids[1].size, 3);
    assert_eq!(back_warnings.len(), 1);
    assert_eq!(back_warnings[0].path, "locked");
    assert_eq!(back_warnings[0].reason, ErrorKind::PermissionDenied);
}

#[test]
fn walk_errors_are_classified() {
    // on the root every failure is fatal, with its root cause
    assert_eq!(classify_walk_error(0, false, true), Err(ErrorKind::PermissionDenied));
    assert_eq!(classify_walk_error(0, false, false), Err(ErrorKind::IoError));
    // below the root a cycle becomes a symlink entry, anything else an
    // entry of unknown kind, and the walk goes on
    assert_eq!(
        classify_walk_error(2, true, false),
        Ok((NodeKind::Symlink, ErrorKind::CycleDetected))
    );
    assert_eq!(
        classify_walk_error(1, false, true),
        Ok((NodeKind::Other, ErrorKind::PermissionDenied))
    );
    assert_eq!(classify_walk_error(3, false, false), Ok((NodeKind::Other, ErrorKind::IoError)));
}

#[test]
fn worker_finish_follows_the_stop_signal() {
    let mut done = ScanTask::new(ScanOptions::new());
    done.launch(true);
    done.finish(None);
    assert_eq!(done.status(), Status::Completed);

    let mut cancelled = ScanTask::new(ScanOptions::new());
    cancelled.launch(true);
    cancelled.finish(Some(StopReason::Requested));
    assert_eq!(cancelled.status(), Status::Cancelled(StopReason::Requested));

    assert_eq!(stop_error(Some(StopReason::Requested)), ErrorKind::Cancelled);
    assert_eq!(stop_error(Some(StopReason::TimedOut)), ErrorKind::TimedOut);
    assert_eq!(stop_error(None), ErrorKind::IoError);
}
