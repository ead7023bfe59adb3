//! The background-task lifecycle: a handle is created `Pending`, moves to
//! `Running` once the root has been validated, and ends in exactly one of
//! `Completed`, `Cancelled` or `Failed`. Cancellation is cooperative: setting
//! the flag does nothing by itself; the walker consults `should_stop` at each
//! directory boundary and then unwinds.

use vstd::prelude::*;
use crate::node::ErrorKind;

verus! {

/// Why a running scan stopped early.
#[derive(Clone, Copy, PartialEq, Eq, Structural, Debug)]
pub enum StopReason {
    Requested,
    TimedOut,
}

/// The lifecycle state of one scan task. The three last states are terminal.
#[derive(Clone, Copy, PartialEq, Eq, Structural, Debug)]
pub enum Status {
    Pending,
    Running,
    Completed,
    Cancelled(StopReason),
    Failed(ErrorKind),
}

/// What a caller asks of a scan.
#[derive(Clone, Copy, PartialEq, Eq, Structural, Debug)]
pub struct ScanOptions {
    pub follow_symlinks: bool,
    pub max_depth: Option<usize>,
    pub timeout_ms: Option<u64>,
}

impl ScanOptions {
    /// The default request: do not follow symlinks, no depth limit, no timeout.
    pub fn new() -> (o: ScanOptions)
        ensures
            !o.follow_symlinks,
            o.max_depth is None,
            o.timeout_ms is None,
    {
        ScanOptions { follow_symlinks: false, max_depth: None, timeout_ms: None }
    }
}

/// One scan task: the request it was started with, its lifecycle status and
/// its cooperative cancellation flag.
pub struct ScanTask {
    pub options: ScanOptions,
    pub status: Status,
    pub cancel_requested: bool,
}

/// Whether a status is terminal. Terminal states are absorbing: no transition
/// below leaves one.
pub open spec fn is_terminal(s: Status) -> bool {
    s is Completed || s is Cancelled || s is Failed
}

/// Whether the configured timeout, if any, has elapsed.
pub open spec fn timeout_hit(options: ScanOptions, elapsed_ms: u64) -> bool {
    match options.timeout_ms {
        Option::Some(t) => elapsed_ms >= t,
        Option::None => false,
    }
}

/// What the walker's directory-boundary check reports: the reason to stop, if
/// there is one. A cancellation request takes precedence over a timeout.
pub open spec fn stop_signal(t: ScanTask, elapsed_ms: u64) -> Option<StopReason> {
    if t.cancel_requested {
        Option::Some(StopReason::Requested)
    } else if timeout_hit(t.options, elapsed_ms) {
        Option::Some(StopReason::TimedOut)
    } else {
        Option::None
    }
}

/// A freshly created task.
pub open spec fn spec_new(options: ScanOptions) -> ScanTask {
    ScanTask { options, status: Status::Pending, cancel_requested: false }
}

/// Launching a pending task: validation decides between `Running` and an
/// immediate `Failed(InvalidRoot)` with no worker started.
pub open spec fn spec_launch(t: ScanTask, root_ok: bool) -> ScanTask {
    ScanTask {
        status: if root_ok {
            Status::Running
        } else {
            Status::Failed(ErrorKind::InvalidRoot)
        },
        ..t
    }
}

/// Requesting cancellation: sets the flag on a live task, has no effect on a
/// terminal one, and never changes the status by itself.
pub open spec fn spec_request_cancel(t: ScanTask) -> ScanTask {
    ScanTask { cancel_requested: t.cancel_requested || !is_terminal(t.status), ..t }
}

/// The worker observed a stop signal and unwound.
pub open spec fn spec_stop(t: ScanTask, reason: StopReason) -> ScanTask {
    ScanTask { status: Status::Cancelled(reason), ..t }
}

/// The worker finished the whole traversal.
pub open spec fn spec_complete(t: ScanTask) -> ScanTask {
    ScanTask { status: Status::Completed, ..t }
}

/// The worker hit a fatal, root-level failure.
pub open spec fn spec_fail(t: ScanTask, kind: ErrorKind) -> ScanTask {
    ScanTask { status: Status::Failed(kind), ..t }
}

impl ScanTask {
    /// A new task is `Pending` with the flag clear; the handle is valid before
    /// any traversal begins.
    pub fn new(options: ScanOptions) -> (t: ScanTask)
        ensures
            t == spec_new(options),
    {
        ScanTask { options, status: Status::Pending, cancel_requested: false }
    }

    /// Moves a pending task to `Running`, or straight to
    /// `Failed(InvalidRoot)` when root validation failed.
    pub fn launch(&mut self, root_ok: bool)
        requires
            old(self).status is Pending,
        ensures
            *final(self) == spec_launch(*old(self), root_ok),
    {
        if root_ok {
            self.status = Status::Running;
        } else {
            self.status = Status::Failed(ErrorKind::InvalidRoot);
        }
    }

    /// Requests cooperative cancellation. Idempotent; no effect once terminal.
    pub fn request_cancel(&mut self)
        ensures
            *final(self) == spec_request_cancel(*old(self)),
    {
        match self.status {
            Status::Completed => {},
            Status::Cancelled(_) => {},
            Status::Failed(_) => {},
            _ => {
                self.cancel_requested = true;
            },
        }
    }

    /// The walker's per-directory check point: reports whether the worker must
    /// stop, and why.
    pub fn should_stop(&self, elapsed_ms: u64) -> (r: Option<StopReason>)
        ensures
            r == stop_signal(*self, elapsed_ms),
    {
        if self.cancel_requested {
            Some(StopReason::Requested)
        } else {
            match self.options.timeout_ms {
                Some(t) => {
                    if elapsed_ms >= t {
                        Some(StopReason::TimedOut)
                    } else {
                        None
                    }
                },
                None => None,
            }
        }
    }

    /// The worker observed a stop signal and unwound: the task ends
    /// `Cancelled` with the observed reason.
    pub fn mark_cancelled(&mut self, reason: StopReason)
        requires
            old(self).status is Running,
        ensures
            *final(self) == spec_stop(*old(self), reason),
    {
        self.status = Status::Cancelled(reason);
    }

    /// The worker finished the traversal: the task ends `Completed`.
    pub fn complete(&mut self)
        requires
            old(self).status is Running,
        ensures
            *final(self) == spec_complete(*old(self)),
    {
        self.status = Status::Completed;
    }

    /// A fatal root-level failure: the task ends `Failed` with its root cause.
    pub fn fail(&mut self, kind: ErrorKind)
        requires
            old(self).status is Running,
        ensures
            *final(self) == spec_fail(*old(self), kind),
    {
        self.status = Status::Failed(kind);
    }

    /// The worker is done: a full walk completes the task, and a walk cut
    /// short by a stop signal cancels it with the observed reason.
    pub fn finish(&mut self, stopped: Option<StopReason>)
        requires
            old(self).status is Running,
        ensures
            *final(self) == match stopped {
                Option::None => spec_complete(*old(self)),
                Option::Some(r) => spec_stop(*old(self), r),
            },
    {
        match stopped {
            Some(r) => self.status = Status::Cancelled(r),
            None => self.status = Status::Completed,
        }
    }

    /// The current lifecycle status.
    pub fn status(&self) -> (s: Status)
        ensures
            s == self.status,
    {
        self.status
    }
}

/// Validates the scan root from what the filesystem reported of it: a root
/// that does not exist or is not a directory is rejected with `InvalidRoot`.
pub fn root_check(exists: bool, is_directory: bool) -> (r: Result<(), ErrorKind>)
    ensures
        r is Ok <==> exists && is_directory,
        r is Err ==> r == Err::<(), ErrorKind>(ErrorKind::InvalidRoot),
{
    if exists && is_directory {
        Ok(())
    } else {
        Err(ErrorKind::InvalidRoot)
    }
}

/// The root cause handed to the caller when a scan ends without a tree: the
/// stop's own error where a stop cut the walk short, and a generic I/O
/// failure where nothing did.
pub fn stop_error(stopped: Option<StopReason>) -> (k: ErrorKind)
    ensures
        k == match stopped {
            Option::Some(StopReason::Requested) => ErrorKind::Cancelled,
            Option::Some(StopReason::TimedOut) => ErrorKind::TimedOut,
            Option::None => ErrorKind::IoError,
        },
{
    match stopped {
        Some(StopReason::Requested) => ErrorKind::Cancelled,
        Some(StopReason::TimedOut) => ErrorKind::TimedOut,
        None => ErrorKind::IoError,
    }
}

/// Responsiveness of cancellation: once the flag is set, the very next
/// directory-boundary check reports a stop, and the worker's unwinding takes
/// the task to the terminal `Cancelled` state — so at most one directory's
/// enumeration separates the request from the terminal state.
pub proof fn lemma_cancel_responsive(t: ScanTask, elapsed_ms: u64)
    requires
        t.cancel_requested,
    ensures
        stop_signal(t, elapsed_ms) == Option::Some(StopReason::Requested),
        spec_stop(t, StopReason::Requested).status is Cancelled,
        is_terminal(spec_stop(t, StopReason::Requested).status),
{
}

/// A timeout behaves exactly as a cancellation, with reason `TimedOut`.
pub proof fn lemma_timeout_is_cancellation(t: ScanTask, elapsed_ms: u64)
    requires
        !t.cancel_requested,
        timeout_hit(t.options, elapsed_ms),
    ensures
        stop_signal(t, elapsed_ms) == Option::Some(StopReason::TimedOut),
        spec_stop(t, StopReason::TimedOut).status is Cancelled,
{
}

/// Requesting cancellation never changes the status, is idempotent, and has
/// no effect at all on a terminal task.
pub proof fn lemma_cancel_request_laws(t: ScanTask)
    ensures
        spec_request_cancel(t).status == t.status,
        spec_request_cancel(spec_request_cancel(t)) == spec_request_cancel(t),
        is_terminal(t.status) ==> spec_request_cancel(t) == t,
{
}

} // verus!
