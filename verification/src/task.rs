//! Task scheduling: a single-consumer queue that serializes scan requests.
//! The scheduler processes at most one task per step and runs a scan to
//! completion — the "scan in progress" flag is clear again when the step
//! returns — before any later task can begin, which is what guarantees
//! at-most-one concurrent scan system-wide.  The surrounding program pumps
//! its channel into the queue and performs the delegated actions.

use vstd::prelude::*;
use crate::scan::{reap_rel, walk_full_post, walk_partial_post, DirReport, ScanService, ScanType};
use crate::scan::{dirs_budget, fs_consistent, fs_wf, tree_budget, tree_wf};
use crate::store::Store;

verus! {

/// The requests the scheduler takes: run a scan, run the metadata
/// enrichment, or shut the loop down.
#[derive(Clone, Copy, Debug, PartialEq, Eq, Structural)]
pub enum TaskType {
    ScanLibrary(ScanType),
    Shutdown,
    PopulateMetadata,
}

/// What one scheduler step did, or asks its caller to do.
#[derive(Clone, Copy, Debug, PartialEq, Eq, Structural)]
pub enum TaskAction {
    /// A scan of the given kind was run to completion.
    RanScan(ScanType),
    /// The caller should run the metadata enrichment now.
    RunMetadata,
    /// Shutdown was observed: the loop ends, outstanding tasks are dropped.
    Stop,
    /// No task was pending.
    Idle,
}

/// What a completed scan of either kind did to the store.
pub open spec fn scan_effect(o: Store, n: Store, m: ScanType, snapshot: Seq<DirReport>) -> bool {
    &&& n.wf()
    &&& m == ScanType::FullScan ==> exists|mid: Store|
        #[trigger] walk_full_post(o, mid, snapshot) && reap_rel(mid, n)
    &&& m == ScanType::PartialScan ==> exists|mid: Store|
        #[trigger] walk_partial_post(o, mid, snapshot) && reap_rel(mid, n)
}

/// Why a task request could not be read from a query.
#[derive(Clone, Copy, Debug, PartialEq, Eq, Structural)]
pub enum TaskQueryError {
    /// The query carried no task parameter.
    MissingParam,
    /// The task parameter names no known task.
    InvalidTaskType,
}

/// Maps the task endpoint's query parameter to a request: the two scan
/// spellings and the metadata spelling are accepted, anything else is
/// rejected, and an absent parameter is an error of its own.
pub fn handle_task(task: &Option<String>) -> (r: Result<TaskType, TaskQueryError>)
    ensures
        (match task {
            Some(t) => if t@ == "scan_library_full"@ {
                r == Ok::<TaskType, TaskQueryError>(TaskType::ScanLibrary(ScanType::FullScan))
            } else if t@ == "scan_library_partial"@ {
                r == Ok::<TaskType, TaskQueryError>(TaskType::ScanLibrary(ScanType::PartialScan))
            } else if t@ == "scan_metadata"@ {
                r == Ok::<TaskType, TaskQueryError>(TaskType::PopulateMetadata)
            } else {
                r == Err::<TaskType, TaskQueryError>(TaskQueryError::InvalidTaskType)
            },
            None => r == Err::<TaskType, TaskQueryError>(TaskQueryError::MissingParam),
        }),
{
    match task {
        Some(t) => {
            if crate::text::str_eq(t.as_str(), "scan_library_full") {
                Ok(TaskType::ScanLibrary(ScanType::FullScan))
            } else if crate::text::str_eq(t.as_str(), "scan_library_partial") {
                Ok(TaskType::ScanLibrary(ScanType::PartialScan))
            } else if crate::text::str_eq(t.as_str(), "scan_metadata") {
                Ok(TaskType::PopulateMetadata)
            } else {
                Err(TaskQueryError::InvalidTaskType)
            }
        },
        None => Err(TaskQueryError::MissingParam),
    }
}

/// The scheduler: the pending queue, the scanning engine it drives, and
/// the process-wide "scan in progress" flag, held here as explicit state.
pub struct TaskService {
    pub task_queue: Vec<TaskType>,
    pub scanner: ScanService,
    pub scan_status: bool,
}

/// How one scheduler step relates its state before and after, and the
/// action it reports.
pub open spec fn step_rel(
    pre: TaskService,
    post: TaskService,
    a: TaskAction,
    snapshot: Seq<DirReport>,
) -> bool {
    &&& post.scan_status == false
    &&& pre.task_queue@.len() == 0 ==> a == TaskAction::Idle && post == pre
    &&& pre.task_queue@.len() > 0 ==> match pre.task_queue@[0] {
        TaskType::ScanLibrary(m) => a == TaskAction::RanScan(m) && post.task_queue@
            == pre.task_queue@.skip(1) && scan_effect(
            pre.scanner.store,
            post.scanner.store,
            m,
            snapshot,
        ),
        TaskType::Shutdown => a == TaskAction::Stop && post.task_queue@.len() == 0
            && post.scanner == pre.scanner,
        TaskType::PopulateMetadata => a == TaskAction::RunMetadata && post.task_queue@
            == pre.task_queue@.skip(1) && post.scanner == pre.scanner,
    }
}

impl TaskService {
    /// A scheduler over the given scanning engine, with an empty queue and
    /// the in-progress flag clear.
    pub fn new(scanner: ScanService) -> (service: TaskService)
        ensures
            service.task_queue@.len() == 0,
            service.scanner == scanner,
            service.scan_status == false,
    {
        TaskService { task_queue: Vec::new(), scanner, scan_status: false }
    }

    /// Appends one request to the queue, as the channel's consumer does.
    pub fn enqueue(&mut self, task: TaskType)
        ensures
            final(self).task_queue@ == old(self).task_queue@.push(task),
            final(self).scanner == old(self).scanner,
            final(self).scan_status == old(self).scan_status,
    {
        self.task_queue.push(task);
    }

    /// One step of the processing loop: takes at most one task from the
    /// front of the queue and handles it completely.  A scan request runs
    /// the whole scan — raise flag, walk, cleanup, clear flag — before the
    /// step returns; a shutdown drops every outstanding task; metadata
    /// enrichment is delegated back to the caller.
    pub fn step(&mut self, snapshot: &Vec<DirReport>) -> (action: TaskAction)
        requires
            old(self).scanner.store.wf(),
            old(self).scan_status == false,
            tree_wf(snapshot@),
            fs_consistent(old(self).scanner.store, snapshot@),
            old(self).scanner.store.next_id + tree_budget(snapshot@) <= u64::MAX,
            old(self).scanner.store.next_id + dirs_budget(
                old(self).scanner.store.directories@,
                snapshot@,
            ) <= u64::MAX,
        ensures
            step_rel(*old(self), *final(self), action, snapshot@),
            final(self).scanner.store.wf(),
    {
        if self.task_queue.len() == 0 {
            return TaskAction::Idle;
        }
        let task = self.task_queue.remove(0);
        match task {
            TaskType::ScanLibrary(m) => {
                let mut status = self.scan_status;
                self.scanner.start_scan(m, snapshot, &mut status);
                self.scan_status = status;
                TaskAction::RanScan(m)
            },
            TaskType::Shutdown => {
                self.task_queue = Vec::new();
                TaskAction::Stop
            },
            TaskType::PopulateMetadata => TaskAction::RunMetadata,
        }
    }
}

/// **Single-flight scheduling.**  With two scan requests queued
/// back-to-back, one step runs exactly the first to completion — the
/// "scan in progress" flag is clear again when it returns — while the
/// second request is still queued at the front.  The second scan can
/// therefore begin only in a later step, after the first's flag has
/// cleared.
pub proof fn lemma_single_flight(
    pre: TaskService,
    post: TaskService,
    action: TaskAction,
    m1: ScanType,
    m2: ScanType,
    snapshot: Seq<DirReport>,
)
    requires
        pre.task_queue@ == seq![TaskType::ScanLibrary(m1), TaskType::ScanLibrary(m2)],
        step_rel(pre, post, action, snapshot),
    ensures
        action == TaskAction::RanScan(m1),
        scan_effect(pre.scanner.store, post.scanner.store, m1, snapshot),
        post.scan_status == false,
        post.task_queue@ == seq![TaskType::ScanLibrary(m2)],
{
    assert(pre.task_queue@[0] == TaskType::ScanLibrary(m1));
    assert(pre.task_queue@.skip(1) =~= seq![TaskType::ScanLibrary(m2)]);
}

} // verus!
