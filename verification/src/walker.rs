//! The walker's per-entry decisions, as pure functions of plain facts about
//! an entry. The traversal itself — enumerating directories, reading
//! metadata, resolving symlinks — is the host's job; these functions decide
//! how each encountered entry is reported.

use vstd::prelude::*;
use crate::node::{ErrorKind, NodeKind};
use crate::task::ScanOptions;

verus! {

/// Whether the depth limit, if any, forbids descending below this depth.
pub open spec fn depth_limited(options: ScanOptions, depth: usize) -> bool {
    match options.max_depth {
        Option::Some(d) => depth >= d,
        Option::None => false,
    }
}

/// How one entry is reported: a metadata failure is kept as it is, a
/// directory sitting at the depth limit is reported as depth-truncated (it
/// stays in the tree as an empty directory, with a warning), and everything
/// else carries its reported length.
pub open spec fn spec_plan_entry(
    options: ScanOptions,
    kind: NodeKind,
    depth: usize,
    meta: Result<u64, ErrorKind>,
) -> Result<u64, ErrorKind> {
    match meta {
        Result::Err(k) => Result::Err(k),
        Result::Ok(sz) => {
            if kind is Directory && depth_limited(options, depth) {
                Result::Err(ErrorKind::DepthTruncated)
            } else {
                Result::Ok(sz)
            }
        },
    }
}

/// Decides how the walker reports one entry. `meta` is what the filesystem
/// gave for it: its byte length, or the failure met reading it (a symlink
/// that closes a cycle arrives here as `CycleDetected`).
pub fn plan_entry(
    options: &ScanOptions,
    kind: NodeKind,
    depth: usize,
    meta: Result<u64, ErrorKind>,
) -> (info: Result<u64, ErrorKind>)
    ensures
        info == spec_plan_entry(*options, kind, depth, meta),
{
    match meta {
        Err(k) => Err(k),
        Ok(sz) => {
            let truncated = match (kind, options.max_depth) {
                (NodeKind::Directory, Some(d)) => depth >= d,
                _ => false,
            };
            if truncated {
                Err(ErrorKind::DepthTruncated)
            } else {
                Ok(sz)
            }
        },
    }
}

/// Whether the walker may enumerate a directory's contents: only a readable
/// directory that the depth limit does not cut off is descended into.
pub fn may_descend(
    options: &ScanOptions,
    kind: NodeKind,
    depth: usize,
    info: Result<u64, ErrorKind>,
) -> (r: bool)
    ensures
        r <==> (kind is Directory && info is Ok && !depth_limited(*options, depth)),
{
    match (kind, info) {
        (NodeKind::Directory, Ok(_)) => {
            match options.max_depth {
                Some(d) => depth < d,
                None => true,
            }
        },
        _ => false,
    }
}

/// The reason recorded for a traversal failure: a symlink cycle, a
/// permission refusal, or any other I/O failure.
pub open spec fn spec_error_reason(cycle: bool, permission: bool) -> ErrorKind {
    if cycle {
        ErrorKind::CycleDetected
    } else if permission {
        ErrorKind::PermissionDenied
    } else {
        ErrorKind::IoError
    }
}

/// How the walker reports a failed traversal item, from plain facts about
/// it: on the root the failure is fatal and the scan fails with its root
/// cause; anywhere else the item becomes a failed entry of its own — a
/// symlink that closed a cycle, otherwise an entry of unknown kind — and the
/// walk goes on.
pub fn classify_walk_error(depth: usize, cycle: bool, permission: bool) -> (r: Result<
    (NodeKind, ErrorKind),
    ErrorKind,
>)
    ensures
        depth == 0 ==> r == Err::<(NodeKind, ErrorKind), ErrorKind>(
            spec_error_reason(cycle, permission),
        ),
        depth != 0 ==> r == Ok::<(NodeKind, ErrorKind), ErrorKind>(
            (
                if cycle {
                    NodeKind::Symlink
                } else {
                    NodeKind::Other
                },
                spec_error_reason(cycle, permission),
            ),
        ),
{
    let reason = if cycle {
        ErrorKind::CycleDetected
    } else if permission {
        ErrorKind::PermissionDenied
    } else {
        ErrorKind::IoError
    };
    if depth == 0 {
        Err(reason)
    } else {
        let kind = if cycle {
            NodeKind::Symlink
        } else {
            NodeKind::Other
        };
        Ok((kind, reason))
    }
}

} // verus!
