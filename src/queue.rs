//! The task table: enqueue, FIFO claim, guarded status transitions,
//! cancellation, retry and statistics. Each operation is one atomic step.

use vstd::prelude::*;
use crate::pool::opt_view;
use crate::text::{chars_of, new_id, str_eq, string_from_chars};

verus! {

/// Lifecycle state of a task.
#[derive(Debug, Clone, Copy, PartialEq, Eq, Structural)]
pub enum TaskStatus {
    Queued,
    Submitting,
    Polling,
    Downloading,
    Succeeded,
    Failed,
    Cancelled,
}

/// Position along the forward chain of states.
pub open spec fn rank(s: TaskStatus) -> int {
    match s {
        TaskStatus::Queued => 0,
        TaskStatus::Submitting => 1,
        TaskStatus::Polling => 2,
        TaskStatus::Downloading => 3,
        _ => 4,
    }
}

/// Whether a state is final.
pub open spec fn is_terminal(s: TaskStatus) -> bool {
    s == TaskStatus::Succeeded || s == TaskStatus::Failed || s == TaskStatus::Cancelled
}

/// Whether `to` is reachable from `from` along the transition graph (or is `from`).
pub open spec fn may_follow(from: TaskStatus, to: TaskStatus) -> bool {
    from == to || (!is_terminal(from) && (
        to == TaskStatus::Failed || to == TaskStatus::Cancelled
        || (to == TaskStatus::Succeeded && from == TaskStatus::Downloading)
        || (!is_terminal(to) && rank(from) < rank(to))
    ))
}

/// Text name of a state.
pub open spec fn status_name(s: TaskStatus) -> Seq<char> {
    match s {
        TaskStatus::Queued => "queued"@,
        TaskStatus::Submitting => "submitting"@,
        TaskStatus::Polling => "polling"@,
        TaskStatus::Downloading => "downloading"@,
        TaskStatus::Succeeded => "succeeded"@,
        TaskStatus::Failed => "failed"@,
        TaskStatus::Cancelled => "cancelled"@,
    }
}

/// State named by a text; unknown names read as failed.
pub open spec fn status_of_name(n: Seq<char>) -> TaskStatus {
    if n == "queued"@ { TaskStatus::Queued }
    else if n == "submitting"@ { TaskStatus::Submitting }
    else if n == "polling"@ { TaskStatus::Polling }
    else if n == "downloading"@ { TaskStatus::Downloading }
    else if n == "succeeded"@ { TaskStatus::Succeeded }
    else if n == "cancelled"@ { TaskStatus::Cancelled }
    else { TaskStatus::Failed }
}

impl TaskStatus {
    /// Text name of the state.
    pub fn as_str(&self) -> (r: &'static str)
        ensures
            r@ == status_name(*self),
    {
        match self {
            TaskStatus::Queued => "queued",
            TaskStatus::Submitting => "submitting",
            TaskStatus::Polling => "polling",
            TaskStatus::Downloading => "downloading",
            TaskStatus::Succeeded => "succeeded",
            TaskStatus::Failed => "failed",
            TaskStatus::Cancelled => "cancelled",
        }
    }

    /// State named by a text; unknown names read as failed.
    pub fn from_name(n: &str) -> (r: TaskStatus)
        ensures
            r == status_of_name(n@),
    {
        if str_eq(n, "queued") { TaskStatus::Queued }
        else if str_eq(n, "submitting") { TaskStatus::Submitting }
        else if str_eq(n, "polling") { TaskStatus::Polling }
        else if str_eq(n, "downloading") { TaskStatus::Downloading }
        else if str_eq(n, "succeeded") { TaskStatus::Succeeded }
        else if str_eq(n, "cancelled") { TaskStatus::Cancelled }
        else { TaskStatus::Failed }
    }

    /// Whether the state is final.
    pub fn is_terminal(&self) -> (r: bool)
        ensures
            r == is_terminal(*self),
    {
        match self {
            TaskStatus::Succeeded | TaskStatus::Failed | TaskStatus::Cancelled => true,
            _ => false,
        }
    }
}

/// Whether a client may still cancel a task in this state.
pub open spec fn cancellable(s: TaskStatus) -> bool {
    s == TaskStatus::Queued || s == TaskStatus::Submitting || s == TaskStatus::Polling
}

/// A video generation task.
#[derive(Debug)]
pub struct TaskRecord {
    pub id: String,
    pub status: TaskStatus,
    pub model: String,
    pub prompt: String,
    pub duration: i32,
    pub ratio: String,
    pub session_pool_id: Option<String>,
    /// Upstream identifier of the submitted job.
    pub history_record_id: Option<String>,
    pub queue_position: Option<i32>,
    pub queue_total: Option<i32>,
    pub queue_eta: Option<String>,
    pub video_url: Option<String>,
    pub error_message: Option<String>,
    pub error_kind: Option<String>,
    /// Times in seconds.
    pub created_at: u64,
    pub updated_at: u64,
    pub started_at: Option<u64>,
    pub finished_at: Option<u64>,
}

/// A task row as plain values.
pub ghost struct TaskView {
    pub id: Seq<char>,
    pub status: TaskStatus,
    pub model: Seq<char>,
    pub prompt: Seq<char>,
    pub duration: i32,
    pub ratio: Seq<char>,
    pub session_pool_id: Option<Seq<char>>,
    pub history_record_id: Option<Seq<char>>,
    pub queue_position: Option<i32>,
    pub queue_total: Option<i32>,
    pub queue_eta: Option<Seq<char>>,
    pub video_url: Option<Seq<char>>,
    pub error_message: Option<Seq<char>>,
    pub error_kind: Option<Seq<char>>,
    pub created_at: u64,
    pub updated_at: u64,
    pub started_at: Option<u64>,
    pub finished_at: Option<u64>,
}

impl View for TaskRecord {
    type V = TaskView;

    open spec fn view(&self) -> TaskView {
        TaskView {
            id: self.id@,
            status: self.status,
            model: self.model@,
            prompt: self.prompt@,
            duration: self.duration,
            ratio: self.ratio@,
            session_pool_id: opt_view(self.session_pool_id),
            history_record_id: opt_view(self.history_record_id),
            queue_position: self.queue_position,
            queue_total: self.queue_total,
            queue_eta: opt_view(self.queue_eta),
            video_url: opt_view(self.video_url),
            error_message: opt_view(self.error_message),
            error_kind: opt_view(self.error_kind),
            created_at: self.created_at,
            updated_at: self.updated_at,
            started_at: self.started_at,
            finished_at: self.finished_at,
        }
    }
}

impl TaskRecord {
    /// A field-by-field copy.
    pub fn duplicate(&self) -> (r: Self)
        ensures
            r@ == self@,
    {
        TaskRecord {
            id: self.id.clone(),
            status: self.status,
            model: self.model.clone(),
            prompt: self.prompt.clone(),
            duration: self.duration,
            ratio: self.ratio.clone(),
            session_pool_id: crate::pool::copy_opt(&self.session_pool_id),
            history_record_id: crate::pool::copy_opt(&self.history_record_id),
            queue_position: self.queue_position,
            queue_total: self.queue_total,
            queue_eta: crate::pool::copy_opt(&self.queue_eta),
            video_url: crate::pool::copy_opt(&self.video_url),
            error_message: crate::pool::copy_opt(&self.error_message),
            error_kind: crate::pool::copy_opt(&self.error_kind),
            created_at: self.created_at,
            updated_at: self.updated_at,
            started_at: self.started_at,
            finished_at: self.finished_at,
        }
    }
}

/// A file attached to a typed submission.
#[derive(Debug, Clone)]
pub struct FileInput {
    /// Base64 data or a URL.
    pub data: String,
    pub filename: String,
    pub mime_type: String,
}

/// A typed submission.
#[derive(Debug)]
pub struct CreateTaskRequest {
    pub prompt: String,
    pub duration: Option<i32>,
    pub ratio: Option<String>,
    pub model: Option<String>,
    pub files: Option<Vec<FileInput>>,
}

/// Counts of tasks by state; running covers submitting, polling and downloading.
#[derive(Debug, Clone, Copy, PartialEq, Eq, Structural)]
pub struct TaskStats {
    pub total: u64,
    pub queued: u64,
    pub running: u64,
    pub succeeded: u64,
    pub failed: u64,
    pub cancelled: u64,
}

/// A stored task: the record and the request it came from.
pub struct StoredTask {
    pub record: TaskRecord,
    pub request_body: Option<Vec<u8>>,
    pub request_content_type: Option<String>,
}

/// A guarded change to one task row.
pub enum TaskOp {
    /// Back to the queue when no session was free.
    Requeue,
    /// Record the reserved session.
    AssignSession { session: String },
    /// Advance along the forward chain.
    Advance { to: TaskStatus },
    /// Submitted upstream: polling, with the upstream job id.
    Submitted { history_id: String },
    /// Queue progress from a poll.
    Progress { position: Option<i32>, total: Option<i32>, eta: Option<String> },
    /// Finished with a video, from downloading.
    Succeed { url: String },
    /// Finished with an error and its kind.
    Fail { message: String, kind: String },
    /// Cancelled by the client.
    Cancel,
}

/// A task row after a change at `now`, or `None` when its guard does not hold.
pub open spec fn apply_task_op(op: TaskOp, t: TaskView, now: u64) -> Option<TaskView> {
    match op {
        TaskOp::Requeue => if t.status == TaskStatus::Submitting {
            Some(TaskView { status: TaskStatus::Queued, updated_at: now, ..t })
        } else { None },
        TaskOp::AssignSession { session } => if t.status == TaskStatus::Submitting {
            Some(TaskView { session_pool_id: Some(session@), updated_at: now, ..t })
        } else { None },
        TaskOp::Advance { to } => if !is_terminal(t.status) && !is_terminal(to) && rank(t.status) <= rank(to) {
            Some(TaskView { status: to, updated_at: now, ..t })
        } else { None },
        TaskOp::Submitted { history_id } => if t.status == TaskStatus::Submitting || t.status == TaskStatus::Polling {
            Some(TaskView { status: TaskStatus::Polling, history_record_id: Some(history_id@), updated_at: now, ..t })
        } else { None },
        TaskOp::Progress { position, total, eta } => if t.status == TaskStatus::Submitting || t.status == TaskStatus::Polling {
            Some(TaskView {
                status: TaskStatus::Polling,
                queue_position: position,
                queue_total: total,
                queue_eta: opt_view(eta),
                updated_at: now,
                ..t
            })
        } else { None },
        TaskOp::Succeed { url } => if t.status == TaskStatus::Downloading {
            Some(TaskView {
                status: TaskStatus::Succeeded,
                video_url: Some(url@),
                finished_at: Some(now),
                updated_at: now,
                ..t
            })
        } else { None },
        TaskOp::Fail { message, kind } => if !is_terminal(t.status) {
            Some(TaskView {
                status: TaskStatus::Failed,
                error_message: Some(message@),
                error_kind: Some(kind@),
                finished_at: Some(now),
                updated_at: now,
                ..t
            })
        } else { None },
        TaskOp::Cancel => if cancellable(t.status) {
            Some(TaskView { status: TaskStatus::Cancelled, finished_at: Some(now), updated_at: now, ..t })
        } else { None },
    }
}

/// Whether `new` is `old` with `op` applied to every row with the id whose guard holds.
pub open spec fn tasks_updated(old: Seq<TaskView>, new: Seq<TaskView>, id: Seq<char>, op: TaskOp, now: u64) -> bool {
    new.len() == old.len() && forall|i: int| 0 <= i < old.len() ==> #[trigger] new[i] == if old[i].id == id
        && apply_task_op(op, old[i], now) is Some {
        apply_task_op(op, old[i], now)->0
    } else {
        old[i]
    }
}

/// Whether some row with the id passes the guard of `op`.
pub open spec fn op_applies(rows: Seq<TaskView>, id: Seq<char>, op: TaskOp, now: u64) -> bool {
    exists|i: int| 0 <= i < rows.len() && #[trigger] rows[i].id == id && apply_task_op(op, rows[i], now) is Some
}

/// Views of stored tasks.
pub open spec fn tasks_view(v: Seq<StoredTask>) -> Seq<TaskView> {
    v.map_values(|t: StoredTask| t.record@)
}

/// Whether row `i` is the first row with the id.
pub open spec fn first_with_id(rows: Seq<TaskView>, id: Seq<char>, i: int) -> bool {
    0 <= i < rows.len() && rows[i].id == id && forall|j: int| 0 <= j < i ==> #[trigger] rows[j].id != id
}

/// Whether a row passes a status filter.
pub open spec fn status_matches(t: TaskView, status: Option<TaskStatus>) -> bool {
    match status {
        Some(s) => t.status == s,
        None => true,
    }
}

/// Rows passing the filter, newest (last added) first.
pub open spec fn listed(rows: Seq<TaskView>, status: Option<TaskStatus>) -> Seq<TaskView>
    decreases rows.len(),
{
    if rows.len() == 0 {
        Seq::empty()
    } else {
        (if status_matches(rows.last(), status) { seq![rows.last()] } else { Seq::empty() })
            + listed(rows.drop_last(), status)
    }
}

/// Number of rows whose state satisfies `p`.
pub open spec fn count_where(rows: Seq<TaskView>, p: spec_fn(TaskStatus) -> bool) -> nat
    decreases rows.len(),
{
    if rows.len() == 0 {
        0
    } else {
        count_where(rows.drop_last(), p) + if p(rows.last().status) { 1nat } else { 0nat }
    }
}

/// States counted as running.
pub open spec fn is_running(s: TaskStatus) -> bool {
    s == TaskStatus::Submitting || s == TaskStatus::Polling || s == TaskStatus::Downloading
}

/// Model used when a submission names none.
pub open spec fn default_model() -> Seq<char> {
    "jimeng-video-seedance-2.0"@
}

/// Ratio used when a submission names none.
pub open spec fn default_ratio() -> Seq<char> {
    "9:16"@
}

/// Duration in seconds used when a submission names none.
pub const DEFAULT_DURATION: i32 = 4;

/// A task row after a change, or `None` when its guard does not hold.
fn apply_op_exec(op: &TaskOp, t: &TaskRecord, now: u64) -> (r: Option<TaskRecord>)
    ensures
        match r {
            Some(x) => apply_task_op(*op, t@, now) == Some(x@),
            None => apply_task_op(*op, t@, now) is None,
        },
{
    let st = t.status;
    let term = st.is_terminal();
    let active = st == TaskStatus::Submitting || st == TaskStatus::Polling;
    let ok = match op {
        TaskOp::Requeue => st == TaskStatus::Submitting,
        TaskOp::AssignSession { .. } => st == TaskStatus::Submitting,
        TaskOp::Advance { to } => !term && !to.is_terminal() && rank_of(st) <= rank_of(*to),
        TaskOp::Submitted { .. } => active,
        TaskOp::Progress { .. } => active,
        TaskOp::Succeed { .. } => st == TaskStatus::Downloading,
        TaskOp::Fail { .. } => !term,
        TaskOp::Cancel => st == TaskStatus::Queued || active,
    };
    if !ok {
        return None;
    }
    let mut n = t.duplicate();
    n.updated_at = now;
    match op {
        TaskOp::Requeue => {
            n.status = TaskStatus::Queued;
        },
        TaskOp::AssignSession { session } => {
            n.session_pool_id = Some(session.clone());
        },
        TaskOp::Advance { to } => {
            n.status = *to;
        },
        TaskOp::Submitted { history_id } => {
            n.status = TaskStatus::Polling;
            n.history_record_id = Some(history_id.clone());
        },
        TaskOp::Progress { position, total, eta } => {
            n.status = TaskStatus::Polling;
            n.queue_position = *position;
            n.queue_total = *total;
            n.queue_eta = crate::pool::copy_opt(eta);
        },
        TaskOp::Succeed { url } => {
            n.status = TaskStatus::Succeeded;
            n.video_url = Some(url.clone());
            n.finished_at = Some(now);
        },
        TaskOp::Fail { message, kind } => {
            n.status = TaskStatus::Failed;
            n.error_message = Some(message.clone());
            n.error_kind = Some(kind.clone());
            n.finished_at = Some(now);
        },
        TaskOp::Cancel => {
            n.status = TaskStatus::Cancelled;
            n.finished_at = Some(now);
        },
    }
    Some(n)
}

/// Position along the forward chain of states.
fn rank_of(s: TaskStatus) -> (r: u8)
    ensures
        r as int == rank(s),
{
    match s {
        TaskStatus::Queued => 0,
        TaskStatus::Submitting => 1,
        TaskStatus::Polling => 2,
        TaskStatus::Downloading => 3,
        _ => 4,
    }
}

/// The task table.
pub struct TaskQueue {
    tasks: Vec<StoredTask>,
}

impl TaskQueue {
    /// The task rows, oldest first.
    pub closed spec fn view_rows(&self) -> Seq<TaskView> {
        tasks_view(self.tasks@)
    }

    /// The stored requests (body and content type), row by row.
    pub closed spec fn view_requests(&self) -> Seq<(Option<Seq<u8>>, Option<Seq<char>>)> {
        requests_view(self.tasks@)
    }

    /// An empty table.
    pub fn new() -> (r: Self)
        ensures
            r.view_rows() == Seq::<TaskView>::empty(),
    {
        let r = TaskQueue { tasks: Vec::new() };
        assert(r.view_rows() =~= Seq::<TaskView>::empty());
        r
    }

    /// Applies `op` at `now` to every row with the id whose guard holds;
    /// tells whether one did.
    fn update_tasks(&mut self, id: &str, op: TaskOp, now: u64) -> (r: bool)
        ensures
            tasks_updated(old(self).view_rows(), final(self).view_rows(), id@, op, now),
            r == op_applies(old(self).view_rows(), id@, op, now),
            final(self).view_requests() == old(self).view_requests(),
    {
        let ghost old_rows = self.view_rows();
        let ghost old_req = self.view_requests();
        let mut changed = false;
        let mut i: usize = 0;
        while i < self.tasks.len()
            invariant
                self.view_rows().len() == old_rows.len(),
                self.tasks@.len() == old_rows.len(),
                self.view_requests() == old_req,
                i <= old_rows.len(),
                forall|j: int| 0 <= j < i ==> #[trigger] self.view_rows()[j] == if old_rows[j].id == id@
                    && apply_task_op(op, old_rows[j], now) is Some {
                    apply_task_op(op, old_rows[j], now)->0
                } else {
                    old_rows[j]
                },
                forall|j: int| i <= j < old_rows.len() ==> #[trigger] self.view_rows()[j] == old_rows[j],
                changed == exists|j: int| 0 <= j < i && #[trigger] old_rows[j].id == id@
                    && apply_task_op(op, old_rows[j], now) is Some,
            decreases old_rows.len() - i,
        {
            assert(self.view_rows()[i as int] == self.tasks@[i as int].record@);
            if str_eq(self.tasks[i].record.id.as_str(), id) {
                match apply_op_exec(&op, &self.tasks[i].record, now) {
                    Some(n) => {
                        let ghost before = self.view_rows();
                        let ghost before_req = self.view_requests();
                        self.tasks[i].record = n;
                        assert(self.view_requests() =~= before_req);
                        assert(self.view_rows() =~= before.update(i as int, apply_task_op(op, old_rows[i as int], now)->0));
                        changed = true;
                    },
                    None => {},
                }
            }
            i += 1;
        }
        changed
    }

    /// Promotes the oldest queued task (earliest creation, then table order)
    /// to submitting, stamping its start; gives its id.
    pub fn claim_next(&mut self, now: u64) -> (r: Option<String>)
        ensures
            match r {
                None => final(self).view_rows() == old(self).view_rows()
                    && forall|j: int| 0 <= j < old(self).view_rows().len()
                        ==> (#[trigger] old(self).view_rows()[j]).status != TaskStatus::Queued,
                Some(id) => exists|i: int| 0 <= i < old(self).view_rows().len()
                    && old(self).view_rows()[i].status == TaskStatus::Queued
                    && (forall|j: int| 0 <= j < old(self).view_rows().len()
                        && (#[trigger] old(self).view_rows()[j]).status == TaskStatus::Queued
                        ==> old(self).view_rows()[i].created_at <= old(self).view_rows()[j].created_at)
                    && id@ == old(self).view_rows()[i].id
                    && final(self).view_rows() == old(self).view_rows().update(i, TaskView {
                        status: TaskStatus::Submitting,
                        started_at: Some(now),
                        updated_at: now,
                        ..old(self).view_rows()[i]
                    }),
            },
            final(self).view_requests() == old(self).view_requests(),
    {
        let ghost rows = self.view_rows();
        let mut best: Option<usize> = None;
        let mut i: usize = 0;
        while i < self.tasks.len()
            invariant
                rows == self.view_rows(),
                rows.len() == self.tasks@.len(),
                i <= rows.len(),
                match best {
                    None => forall|j: int| 0 <= j < i ==> (#[trigger] rows[j]).status != TaskStatus::Queued,
                    Some(b) => b < i && rows[b as int].status == TaskStatus::Queued
                        && forall|j: int| 0 <= j < i && (#[trigger] rows[j]).status == TaskStatus::Queued
                            ==> rows[b as int].created_at <= rows[j].created_at,
                },
            decreases rows.len() - i,
        {
            assert(rows[i as int] == self.tasks@[i as int].record@);
            if self.tasks[i].record.status == TaskStatus::Queued {
                let better = match best {
                    None => true,
                    Some(b) => {
                        assert(rows[b as int] == self.tasks@[b as int].record@);
                        self.tasks[i].record.created_at < self.tasks[b].record.created_at
                    },
                };
                if better {
                    best = Some(i);
                }
            }
            i += 1;
        }
        match best {
            None => None,
            Some(b) => {
                assert(rows[b as int] == self.tasks@[b as int].record@);
                let ghost before_req = self.view_requests();
                self.tasks[b].record.status = TaskStatus::Submitting;
                self.tasks[b].record.started_at = Some(now);
                self.tasks[b].record.updated_at = now;
                assert(self.view_requests() =~= before_req);
                assert(self.view_rows() =~= rows.update(b as int, TaskView {
                    status: TaskStatus::Submitting,
                    started_at: Some(now),
                    updated_at: now,
                    ..rows[b as int]
                }));
                Some(self.tasks[b].record.id.clone())
            },
        }
    }

    /// Puts a claimed task back in the queue when no session was free.
    pub fn requeue_task(&mut self, id: &str, now: u64) -> (r: bool)
        ensures
            tasks_updated(old(self).view_rows(), final(self).view_rows(), id@, TaskOp::Requeue, now),
            r == op_applies(old(self).view_rows(), id@, TaskOp::Requeue, now),
            final(self).view_requests() == old(self).view_requests(),
    {
        self.update_tasks(id, TaskOp::Requeue, now)
    }

    /// Records the session reserved for a claimed task.
    pub fn assign_session(&mut self, id: &str, session: String, now: u64) -> (r: bool)
        ensures
            tasks_updated(old(self).view_rows(), final(self).view_rows(), id@,
                TaskOp::AssignSession { session }, now),
            r == op_applies(old(self).view_rows(), id@, TaskOp::AssignSession { session }, now),
            final(self).view_requests() == old(self).view_requests(),
    {
        let ghost op = TaskOp::AssignSession { session };
        self.update_tasks(id, TaskOp::AssignSession { session }, now)
    }

    /// Moves a task forward to a non-final state.
    pub fn update_status(&mut self, id: &str, to: TaskStatus, now: u64) -> (r: bool)
        ensures
            tasks_updated(old(self).view_rows(), final(self).view_rows(), id@, TaskOp::Advance { to }, now),
            r == op_applies(old(self).view_rows(), id@, TaskOp::Advance { to }, now),
            final(self).view_requests() == old(self).view_requests(),
    {
        self.update_tasks(id, TaskOp::Advance { to }, now)
    }

    /// Records the upstream job id; the task is polling from then on.
    pub fn record_submission(&mut self, id: &str, history_id: String, now: u64) -> (r: bool)
        ensures
            tasks_updated(old(self).view_rows(), final(self).view_rows(), id@,
                TaskOp::Submitted { history_id }, now),
            r == op_applies(old(self).view_rows(), id@, TaskOp::Submitted { history_id }, now),
            final(self).view_requests() == old(self).view_requests(),
    {
        self.update_tasks(id, TaskOp::Submitted { history_id }, now)
    }

    /// Records queue progress from a poll.
    pub fn record_progress(
        &mut self,
        id: &str,
        position: Option<i32>,
        total: Option<i32>,
        eta: Option<String>,
        now: u64,
    ) -> (r: bool)
        ensures
            tasks_updated(old(self).view_rows(), final(self).view_rows(), id@,
                TaskOp::Progress { position, total, eta }, now),
            r == op_applies(old(self).view_rows(), id@, TaskOp::Progress { position, total, eta }, now),
            final(self).view_requests() == old(self).view_requests(),
    {
        self.update_tasks(id, TaskOp::Progress { position, total, eta }, now)
    }

    /// Finishes a downloading task with its video; a task cancelled or
    /// failed before is left alone.
    pub fn complete_task(&mut self, id: &str, url: String, now: u64) -> (r: bool)
        ensures
            tasks_updated(old(self).view_rows(), final(self).view_rows(), id@, TaskOp::Succeed { url }, now),
            r == op_applies(old(self).view_rows(), id@, TaskOp::Succeed { url }, now),
            final(self).view_requests() == old(self).view_requests(),
    {
        self.update_tasks(id, TaskOp::Succeed { url }, now)
    }

    /// Finishes a task with an error and its kind, unless it already ended.
    pub fn fail_task(&mut self, id: &str, message: String, kind: String, now: u64) -> (r: bool)
        ensures
            tasks_updated(old(self).view_rows(), final(self).view_rows(), id@,
                TaskOp::Fail { message, kind }, now),
            r == op_applies(old(self).view_rows(), id@, TaskOp::Fail { message, kind }, now),
            final(self).view_requests() == old(self).view_requests(),
    {
        self.update_tasks(id, TaskOp::Fail { message, kind }, now)
    }

    /// Cancels a task that is queued, submitting or polling; tells whether
    /// it did.
    pub fn cancel_task(&mut self, id: &str, now: u64) -> (r: bool)
        ensures
            tasks_updated(old(self).view_rows(), final(self).view_rows(), id@, TaskOp::Cancel, now),
            r == op_applies(old(self).view_rows(), id@, TaskOp::Cancel, now),
            final(self).view_requests() == old(self).view_requests(),
    {
        self.update_tasks(id, TaskOp::Cancel, now)
    }

    /// Index of the first row with the id.
    fn find_index(&self, id: &str) -> (r: Option<usize>)
        ensures
            match r {
                Some(i) => first_with_id(self.view_rows(), id@, i as int),
                None => forall|j: int| 0 <= j < self.view_rows().len() ==> (#[trigger] self.view_rows()[j]).id != id@,
            },
    {
        let mut i: usize = 0;
        while i < self.tasks.len()
            invariant
                i <= self.tasks@.len(),
                self.view_rows().len() == self.tasks@.len(),
                forall|j: int| 0 <= j < i ==> (#[trigger] self.view_rows()[j]).id != id@,
            decreases self.tasks@.len() - i,
        {
            assert(self.view_rows()[i as int] == self.tasks@[i as int].record@);
            if str_eq(self.tasks[i].record.id.as_str(), id) {
                return Some(i);
            }
            i += 1;
        }
        None
    }

    /// The stored request (body and content type) of the first task with the id.
    pub fn stored_request(&self, id: &str) -> (r: (Option<Vec<u8>>, Option<String>))
        ensures
            match find_first(self.view_rows(), id@) {
                Some(i) => (bytes_opt(r.0), crate::pool::opt_view(r.1)) == self.view_requests()[i],
                None => r.0 is None && r.1 is None,
            },
    {
        match self.find_index(id) {
            Some(i) => {
                proof { lemma_find_first(self.view_rows(), id@, i as int); }
                let body = match &self.tasks[i].request_body {
                    Some(b) => Some(b.clone()),
                    None => None,
                };
                let ct = crate::pool::copy_opt(&self.tasks[i].request_content_type);
                assert(self.view_requests()[i as int] == (bytes_opt(self.tasks@[i as int].request_body),
                    crate::pool::opt_view(self.tasks@[i as int].request_content_type)));
                (body, ct)
            },
            None => {
                proof { lemma_find_none(self.view_rows(), id@); }
                (None, None)
            },
        }
    }

    /// The first task with the id.
    pub fn get_task(&self, id: &str) -> (r: Option<TaskRecord>)
        ensures
            match r {
                Some(t) => exists|i: int| first_with_id(self.view_rows(), id@, i) && t@ == self.view_rows()[i],
                None => forall|j: int| 0 <= j < self.view_rows().len() ==> (#[trigger] self.view_rows()[j]).id != id@,
            },
    {
        match self.find_index(id) {
            Some(i) => {
                assert(self.view_rows()[i as int] == self.tasks@[i as int].record@);
                Some(self.tasks[i].record.duplicate())
            },
            None => None,
        }
    }

    /// Whether the first task with the id was cancelled.
    pub fn is_task_cancelled(&self, id: &str) -> (r: bool)
        ensures
            r == exists|i: int| first_with_id(self.view_rows(), id@, i)
                && self.view_rows()[i].status == TaskStatus::Cancelled,
    {
        match self.find_index(id) {
            Some(i) => {
                assert(self.view_rows()[i as int] == self.tasks@[i as int].record@);
                let r = self.tasks[i].record.status == TaskStatus::Cancelled;
                proof {
                    assert forall|k: int| first_with_id(self.view_rows(), id@, k) implies k == i by {
                        if k < i { assert(self.view_rows()[k].id != id@); }
                        if k > i { assert(self.view_rows()[i as int].id != id@); }
                    }
                }
                r
            },
            None => false,
        }
    }

    /// A new queued task with the model, prompt, duration, ratio and stored
    /// request of the first task with the id; the original is left alone.
    pub fn retry_task(&mut self, id: &str, now: u64) -> (r: Option<TaskRecord>)
        ensures
            match r {
                None => final(self).view_rows() == old(self).view_rows()
                    && forall|j: int| 0 <= j < old(self).view_rows().len() ==> (#[trigger] old(self).view_rows()[j]).id != id@,
                Some(t) => exists|i: int| first_with_id(old(self).view_rows(), id@, i)
                    && t@.status == TaskStatus::Queued
                    && t@.model == old(self).view_rows()[i].model
                    && t@.prompt == old(self).view_rows()[i].prompt
                    && t@.duration == old(self).view_rows()[i].duration
                    && t@.ratio == old(self).view_rows()[i].ratio
                    && t@.created_at == now
                    && (forall|k: int| 0 <= k < old(self).view_rows().len() ==> (#[trigger] old(self).view_rows()[k]).id != t@.id)
                    && final(self).view_rows() == old(self).view_rows().push(t@)
                    && final(self).view_requests() == old(self).view_requests().push(old(self).view_requests()[i]),
            },
    {
        match self.find_index(id) {
            None => None,
            Some(i) => {
                let ghost src = self.view_rows()[i as int];
                assert(src == self.tasks@[i as int].record@);
                let req = CreateTaskRequest {
                    prompt: self.tasks[i].record.prompt.clone(),
                    duration: Some(self.tasks[i].record.duration),
                    ratio: Some(self.tasks[i].record.ratio.clone()),
                    model: Some(self.tasks[i].record.model.clone()),
                    files: None,
                };
                let body = match &self.tasks[i].request_body {
                    Some(b) => Some(b.clone()),
                    None => None,
                };
                assert(self.view_requests()[i as int] == (bytes_opt(self.tasks@[i as int].request_body),
                    crate::pool::opt_view(self.tasks@[i as int].request_content_type)));
                let ct = crate::pool::copy_opt(&self.tasks[i].request_content_type);
                Some(self.enqueue(req, body, ct, now))
            },
        }
    }

    /// Tasks passing the status filter, newest first by creation time (ties
    /// in reverse table order), at most `limit` of them.
    pub fn list_tasks(&self, status: Option<TaskStatus>, limit: usize) -> (r: Vec<TaskRecord>)
        ensures
            tasks_of(r@) == by_created_desc(listed(self.view_rows(), status)).take(
                if listed(self.view_rows(), status).len() < limit { listed(self.view_rows(), status).len() as int }
                else { limit as int }),
            created_desc(tasks_of(r@)),
            r@.len() <= limit,
    {
        let n = self.tasks.len();
        let all = self.rows_in_reverse(status, usize::MAX);
        proof {
            lemma_listed_len(self.view_rows(), status);
            let l = listed(self.view_rows(), status);
            assert(self.view_rows().len() == n);
            assert(l.take(l.len() as int) =~= l);
            if l.len() == usize::MAX { assert(l.take(usize::MAX as int) =~= l); }
        }
        assert(tasks_of(all@) =~= listed(self.view_rows(), status));
        let mut sorted = sort_by_created(all);
        proof {
            lemma_sort_len(listed(self.view_rows(), status));
            lemma_sort_sorted(listed(self.view_rows(), status));
        }
        let ghost full = tasks_of(sorted@);
        sorted.truncate(limit);
        assert(tasks_of(sorted@) =~= full.take(
            if listed(self.view_rows(), status).len() < limit { listed(self.view_rows(), status).len() as int }
            else { limit as int }));
        sorted
    }

    /// Tasks passing the status filter, last added first, at most `limit` of them.
    fn rows_in_reverse(&self, status: Option<TaskStatus>, limit: usize) -> (r: Vec<TaskRecord>)
        ensures
            tasks_of(r@) == listed(self.view_rows(), status).take(
                if listed(self.view_rows(), status).len() < limit { listed(self.view_rows(), status).len() as int }
                else { limit as int }),
    {
        let ghost rows = self.view_rows();
        let mut out: Vec<TaskRecord> = Vec::new();
        let mut i: usize = self.tasks.len();
        assert(rows.subrange(0, i as int) =~= rows);
        while i > 0 && out.len() < limit
            invariant
                rows == self.view_rows(),
                rows.len() == self.tasks@.len(),
                i <= rows.len(),
                out@.len() <= limit,
                listed(rows, status) == tasks_of(out@) + listed(rows.subrange(0, i as int), status),
            decreases i,
        {
            let ghost pre = rows.subrange(0, i as int);
            assert(pre.drop_last() =~= rows.subrange(0, i - 1));
            assert(pre.last() == self.tasks@[i - 1].record@);
            let ghost before = tasks_of(out@);
            let keep = match status {
                Some(st) => self.tasks[i - 1].record.status == st,
                None => true,
            };
            if keep {
                out.push(self.tasks[i - 1].record.duplicate());
                assert(tasks_of(out@) =~= before + seq![pre.last()]);
            }
            i -= 1;
        }
        proof {
            let l = listed(rows, status);
            if out@.len() < limit {
                assert(i == 0);
                assert(listed(rows.subrange(0, 0), status) =~= Seq::<TaskView>::empty());
                assert(l =~= tasks_of(out@));
                lemma_listed_len(rows, status);
            }
            assert(l.take(if l.len() < limit { l.len() as int } else { limit as int }) =~= tasks_of(out@));
        }
        out
    }

    /// Counts of tasks by state.
    pub fn stats(&self) -> (r: TaskStats)
        ensures
            r.total == self.view_rows().len(),
            r.queued == count_where(self.view_rows(), |s: TaskStatus| s == TaskStatus::Queued),
            r.running == count_where(self.view_rows(), |s: TaskStatus| is_running(s)),
            r.succeeded == count_where(self.view_rows(), |s: TaskStatus| s == TaskStatus::Succeeded),
            r.failed == count_where(self.view_rows(), |s: TaskStatus| s == TaskStatus::Failed),
            r.cancelled == count_where(self.view_rows(), |s: TaskStatus| s == TaskStatus::Cancelled),
    {
        let ghost rows = self.view_rows();
        let mut r = TaskStats { total: 0, queued: 0, running: 0, succeeded: 0, failed: 0, cancelled: 0 };
        let mut i: usize = 0;
        while i < self.tasks.len()
            invariant
                rows == self.view_rows(),
                rows.len() == self.tasks@.len(),
                i <= rows.len(),
                r.total == i,
                r.queued == count_where(rows.subrange(0, i as int), |s: TaskStatus| s == TaskStatus::Queued),
                r.running == count_where(rows.subrange(0, i as int), |s: TaskStatus| is_running(s)),
                r.succeeded == count_where(rows.subrange(0, i as int), |s: TaskStatus| s == TaskStatus::Succeeded),
                r.failed == count_where(rows.subrange(0, i as int), |s: TaskStatus| s == TaskStatus::Failed),
                r.cancelled == count_where(rows.subrange(0, i as int), |s: TaskStatus| s == TaskStatus::Cancelled),
                r.queued <= i && r.running <= i && r.succeeded <= i && r.failed <= i && r.cancelled <= i,
            decreases rows.len() - i,
        {
            let ghost pre = rows.subrange(0, i + 1);
            assert(pre.drop_last() =~= rows.subrange(0, i as int));
            assert(pre.last() == self.tasks@[i as int].record@);
            match self.tasks[i].record.status {
                TaskStatus::Queued => { r.queued = r.queued + 1; },
                TaskStatus::Submitting | TaskStatus::Polling | TaskStatus::Downloading => { r.running = r.running + 1; },
                TaskStatus::Succeeded => { r.succeeded = r.succeeded + 1; },
                TaskStatus::Failed => { r.failed = r.failed + 1; },
                TaskStatus::Cancelled => { r.cancelled = r.cancelled + 1; },
            }
            r.total = r.total + 1;
            i += 1;
        }
        assert(rows.subrange(0, i as int) =~= rows);
        r
    }

    /// An id that no row holds: a random one, lengthened with `-` past every
    /// stored id in the unlikely case that it is taken.
    fn fresh_id(&self) -> (r: String)
        ensures
            forall|i: int| 0 <= i < self.view_rows().len() ==> (#[trigger] self.view_rows()[i]).id != r@,
    {
        let cand = new_id();
        let cv = chars_of(cand.as_str());
        let mut taken = false;
        let mut longest: usize = 0;
        let mut i: usize = 0;
        while i < self.tasks.len()
            invariant
                i <= self.tasks@.len(),
                self.view_rows().len() == self.tasks@.len(),
                cv@ == cand@,
                !taken ==> forall|k: int| 0 <= k < i ==> (#[trigger] self.view_rows()[k]).id != cand@,
                forall|k: int| 0 <= k < i ==> (#[trigger] self.view_rows()[k]).id.len() <= longest,
            decreases self.tasks@.len() - i,
        {
            assert(self.view_rows()[i as int] == self.tasks@[i as int].record@);
            let idv = chars_of(self.tasks[i].record.id.as_str());
            if crate::text::seq_eq(&idv, &cv) {
                taken = true;
            }
            if idv.len() > longest {
                longest = idv.len();
            }
            i += 1;
        }
        if !taken {
            return cand;
        }
        let mut v = cv;
        while v.len() <= longest
            invariant
                forall|k: int| 0 <= k < self.view_rows().len() ==> (#[trigger] self.view_rows()[k]).id.len() <= longest,
            decreases longest + 1 - v@.len(),
        {
            v.push('-');
        }
        string_from_chars(&v)
    }

    /// Adds a queued task for the request, with the default model, duration
    /// and ratio where the request names none.
    pub fn enqueue(
        &mut self,
        req: CreateTaskRequest,
        request_body: Option<Vec<u8>>,
        request_content_type: Option<String>,
        now: u64,
    ) -> (r: TaskRecord)
        ensures
            r@ == (TaskView {
                id: r@.id,
                status: TaskStatus::Queued,
                model: match req.model { Some(m) => m@, None => default_model() },
                prompt: req.prompt@,
                duration: match req.duration { Some(d) => d, None => DEFAULT_DURATION },
                ratio: match req.ratio { Some(x) => x@, None => default_ratio() },
                session_pool_id: None,
                history_record_id: None,
                queue_position: None,
                queue_total: None,
                queue_eta: None,
                video_url: None,
                error_message: None,
                error_kind: None,
                created_at: now,
                updated_at: now,
                started_at: None,
                finished_at: None,
            }),
            final(self).view_rows() == old(self).view_rows().push(r@),
            forall|i: int| 0 <= i < old(self).view_rows().len() ==> (#[trigger] old(self).view_rows()[i]).id != r@.id,
            final(self).view_requests() == old(self).view_requests().push(
                (bytes_opt(request_body), crate::pool::opt_view(request_content_type))),
    {
        let ghost req_view = (bytes_opt(request_body), crate::pool::opt_view(request_content_type));
        let model = match req.model {
            Some(m) => m,
            None => "jimeng-video-seedance-2.0".to_owned(),
        };
        let ratio = match req.ratio {
            Some(x) => x,
            None => "9:16".to_owned(),
        };
        let duration = match req.duration {
            Some(d) => d,
            None => DEFAULT_DURATION,
        };
        let record = TaskRecord {
            id: self.fresh_id(),
            status: TaskStatus::Queued,
            model,
            prompt: req.prompt,
            duration,
            ratio,
            session_pool_id: None,
            history_record_id: None,
            queue_position: None,
            queue_total: None,
            queue_eta: None,
            video_url: None,
            error_message: None,
            error_kind: None,
            created_at: now,
            updated_at: now,
            started_at: None,
            finished_at: None,
        };
        let out = record.duplicate();
        self.tasks.push(StoredTask { record, request_body, request_content_type });
        assert(self.view_rows() =~= old(self).view_rows().push(out@));
        assert(self.view_requests() =~= old(self).view_requests().push(req_view));
        out
    }
}

/// Views of task records.
pub open spec fn tasks_of(v: Seq<TaskRecord>) -> Seq<TaskView> {
    v.map_values(|t: TaskRecord| t@)
}

/// A listing is never longer than the rows.
pub proof fn lemma_listed_len(rows: Seq<TaskView>, status: Option<TaskStatus>)
    ensures
        listed(rows, status).len() <= rows.len(),
    decreases rows.len(),
{
    if rows.len() > 0 {
        lemma_listed_len(rows.drop_last(), status);
    }
}

/// Every guarded change but the return to the queue moves a task along the
/// transition graph, and no change applies to a task in a final state.
pub proof fn lemma_status_monotone(op: TaskOp, t: TaskView, now: u64)
    ensures
        is_terminal(t.status) ==> apply_task_op(op, t, now) is None,
        !(op is Requeue) && apply_task_op(op, t, now) is Some
            ==> may_follow(t.status, apply_task_op(op, t, now)->0.status),
{
}

/// Cancelling changes a task exactly when it is queued, submitting or polling.
pub proof fn lemma_cancel_outcome(t: TaskView, now: u64)
    ensures
        apply_task_op(TaskOp::Cancel, t, now) is Some <==> cancellable(t.status),
        is_terminal(t.status) ==> apply_task_op(TaskOp::Cancel, t, now) is None,
{
}

/// View of optional bytes.
pub open spec fn bytes_opt(o: Option<Vec<u8>>) -> Option<Seq<u8>> {
    match o {
        Some(b) => Some(b@),
        None => None,
    }
}

/// Stored requests of stored tasks.
pub open spec fn requests_view(v: Seq<StoredTask>) -> Seq<(Option<Seq<u8>>, Option<Seq<char>>)> {
    v.map_values(|t: StoredTask| (bytes_opt(t.request_body), crate::pool::opt_view(t.request_content_type)))
}

/// Index of the first row with the id.
pub open spec fn find_first(rows: Seq<TaskView>, id: Seq<char>) -> Option<int> {
    if exists|i: int| first_with_id(rows, id, i) {
        Some(choose|i: int| first_with_id(rows, id, i))
    } else {
        None
    }
}

proof fn lemma_find_first(rows: Seq<TaskView>, id: Seq<char>, i: int)
    requires
        first_with_id(rows, id, i),
    ensures
        find_first(rows, id) == Some(i),
{
    let k = choose|k: int| first_with_id(rows, id, k);
    if k < i {
        assert(rows[k].id != id);
    } else if k > i {
        assert(rows[i].id != id);
    }
}

proof fn lemma_find_none(rows: Seq<TaskView>, id: Seq<char>)
    requires
        forall|j: int| 0 <= j < rows.len() ==> (#[trigger] rows[j]).id != id,
    ensures
        find_first(rows, id) is None,
{
}

/// `x` placed after every leading task created no earlier than it.
pub open spec fn insert_desc(s: Seq<TaskView>, x: TaskView) -> Seq<TaskView>
    decreases s.len(),
{
    if s.len() == 0 {
        seq![x]
    } else if s[0].created_at >= x.created_at {
        seq![s[0]] + insert_desc(s.drop_first(), x)
    } else {
        seq![x] + s
    }
}

/// Tasks sorted by creation time, latest first; equal times keep their order.
pub open spec fn by_created_desc(s: Seq<TaskView>) -> Seq<TaskView>
    decreases s.len(),
{
    if s.len() == 0 { s } else { insert_desc(by_created_desc(s.drop_last()), s.last()) }
}

/// Whether creation times never increase along the sequence.
pub open spec fn created_desc(s: Seq<TaskView>) -> bool {
    forall|i: int, j: int| 0 <= i < j < s.len() ==> s[i].created_at >= s[j].created_at
}

proof fn lemma_insert_desc(s: Seq<TaskView>, x: TaskView)
    ensures
        insert_desc(s, x).len() == s.len() + 1,
        created_desc(s) ==> created_desc(insert_desc(s, x)),
        forall|k: int| 0 <= k < insert_desc(s, x).len() ==>
            (#[trigger] insert_desc(s, x)[k] == x || s.contains(insert_desc(s, x)[k])),
    decreases s.len(),
{
    if s.len() > 0 && s[0].created_at >= x.created_at {
        let t = s.drop_first();
        lemma_insert_desc(t, x);
        let r = insert_desc(s, x);
        assert(r == seq![s[0]] + insert_desc(t, x));
        assert forall|k: int| 0 <= k < r.len() implies (#[trigger] r[k] == x || s.contains(r[k])) by {
            if k == 0 {
                assert(s[0] == r[0]);
            } else {
                assert(r[k] == insert_desc(t, x)[k - 1]);
                if insert_desc(t, x)[k - 1] != x {
                    let w = choose|w: int| 0 <= w < t.len() && t[w] == r[k];
                    assert(s[w + 1] == r[k]);
                }
            }
        }
        if created_desc(s) {
            assert(created_desc(t)) by {
                assert forall|i: int, j: int| 0 <= i < j < t.len() implies t[i].created_at >= t[j].created_at by {
                    assert(t[i] == s[i + 1] && t[j] == s[j + 1]);
                }
            }
            assert forall|i: int, j: int| 0 <= i < j < r.len() implies r[i].created_at >= r[j].created_at by {
                if i == 0 {
                    let y = r[j];
                    assert(y == insert_desc(t, x)[j - 1]);
                    if y != x {
                        let w = choose|w: int| 0 <= w < t.len() && t[w] == y;
                        assert(s[w + 1] == y);
                    }
                } else {
                    assert(r[i] == insert_desc(t, x)[i - 1]);
                    assert(r[j] == insert_desc(t, x)[j - 1]);
                }
            }
        }
    } else if s.len() > 0 {
        let r = insert_desc(s, x);
        assert(r == seq![x] + s);
        assert forall|k: int| 0 <= k < r.len() implies (#[trigger] r[k] == x || s.contains(r[k])) by {
            if k > 0 { assert(r[k] == s[k - 1]); }
        }
        if created_desc(s) {
            assert forall|i: int, j: int| 0 <= i < j < r.len() implies r[i].created_at >= r[j].created_at by {
                if i == 0 {
                    assert(r[j] == s[j - 1]);
                    assert(s[0].created_at >= s[j - 1].created_at || j - 1 == 0);
                } else {
                    assert(r[i] == s[i - 1] && r[j] == s[j - 1]);
                }
            }
        }
    } else {
        let r = insert_desc(s, x);
        assert(r == seq![x]);
    }
}

proof fn lemma_sort_len(s: Seq<TaskView>)
    ensures
        by_created_desc(s).len() == s.len(),
    decreases s.len(),
{
    if s.len() > 0 {
        lemma_sort_len(s.drop_last());
        lemma_insert_desc(by_created_desc(s.drop_last()), s.last());
    }
}

proof fn lemma_sort_sorted(s: Seq<TaskView>)
    ensures
        created_desc(by_created_desc(s)),
    decreases s.len(),
{
    if s.len() > 0 {
        lemma_sort_sorted(s.drop_last());
        lemma_insert_desc(by_created_desc(s.drop_last()), s.last());
    }
}

/// Inserting at the first position created before `x` is `insert_desc`.
proof fn lemma_insert_desc_at(s: Seq<TaskView>, x: TaskView, j: int)
    requires
        0 <= j <= s.len(),
        forall|k: int| 0 <= k < j ==> (#[trigger] s[k]).created_at >= x.created_at,
        j < s.len() ==> s[j].created_at < x.created_at,
    ensures
        insert_desc(s, x) == s.insert(j, x),
    decreases s.len(),
{
    if s.len() == 0 {
        assert(s.insert(j, x) =~= seq![x]);
    } else if j == 0 {
        assert(s.insert(0, x) =~= seq![x] + s);
    } else {
        let t = s.drop_first();
        assert forall|k: int| 0 <= k < j - 1 implies (#[trigger] t[k]).created_at >= x.created_at by {
            assert(t[k] == s[k + 1]);
        }
        lemma_insert_desc_at(t, x, j - 1);
        assert(s.insert(j, x) =~= seq![s[0]] + t.insert(j - 1, x));
    }
}

/// Places a task after every task created no earlier than it.
fn insert_record(out: &mut Vec<TaskRecord>, x: TaskRecord)
    ensures
        tasks_of(final(out)@) == insert_desc(tasks_of(old(out)@), x@),
{
    let ghost s = tasks_of(out@);
    let mut j: usize = 0;
    while j < out.len() && out[j].created_at >= x.created_at
        invariant
            j <= out@.len(),
            s == tasks_of(out@),
            forall|k: int| 0 <= k < j ==> (#[trigger] s[k]).created_at >= x@.created_at,
        decreases out@.len() - j,
    {
        assert(s[j as int] == out@[j as int]@);
        j += 1;
    }
    proof {
        if j < out.len() { assert(s[j as int] == out@[j as int]@); }
        lemma_insert_desc_at(s, x@, j as int);
    }
    let ghost xv = x@;
    out.insert(j, x);
    assert(tasks_of(out@) =~= s.insert(j as int, xv));
}

/// Tasks sorted by creation time, latest first (see `by_created_desc`).
fn sort_by_created(v: Vec<TaskRecord>) -> (r: Vec<TaskRecord>)
    ensures
        tasks_of(r@) == by_created_desc(tasks_of(v@)),
{
    let ghost all = tasks_of(v@);
    let mut rest = v;
    let mut out: Vec<TaskRecord> = Vec::new();
    assert(all.subrange(0, 0) =~= Seq::<TaskView>::empty());
    assert(tasks_of(out@) =~= by_created_desc(all.subrange(0, 0)));
    assert(tasks_of(rest@) =~= all.subrange(0, all.len() as int));
    let n = rest.len();
    let mut i: usize = 0;
    while i < n
        invariant
            n == all.len(),
            i <= n,
            rest@.len() == n - i,
            tasks_of(rest@) == all.subrange(i as int, n as int),
            tasks_of(out@) == by_created_desc(all.subrange(0, i as int)),
        decreases n - i,
    {
        let ghost before = tasks_of(rest@);
        let ghost old_rest = rest@;
        let x = rest.remove(0);
        assert(rest@ =~= old_rest.subrange(1, old_rest.len() as int));
        assert forall|k: int| 0 <= k < rest@.len() implies tasks_of(rest@)[k] == all[i + 1 + k] by {
            assert(rest@[k] == old_rest[k + 1]);
            assert(before[k + 1] == old_rest[k + 1]@);
        }
        assert(x@ == before[0]);
        assert(before[0] == all[i as int]);
        assert(tasks_of(rest@) =~= all.subrange(i + 1, n as int));
        insert_record(&mut out, x);
        assert(all.subrange(0, i + 1).drop_last() =~= all.subrange(0, i as int));
        i += 1;
    }
    assert(all.subrange(0, n as int) =~= all);
    out
}

} // verus!
