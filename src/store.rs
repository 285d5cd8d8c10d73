use vstd::prelude::*;

use crate::config::{Config, Job, JobView, Step, StepView};
use crate::context::{Context, ContextView};
use crate::error::PapError;
use crate::status::{clone_bytes, ExecutionStatus, JobStatus, PipelineStatus, PipelineStatusView, StepStatus, StepStatusView, JobStatusView};
use crate::text::join;

verus! {

/// A pipeline row: the submission it was created from and its status.
pub ghost struct PipelineRow {
    pub id: u32,
    pub context: ContextView,
    pub status: ExecutionStatus,
}

/// A job row.
pub ghost struct JobRow {
    pub id: u32,
    pub pipeline_id: u32,
    pub config: JobView,
    pub status: ExecutionStatus,
    pub current_step: u32,
}

/// A step row; `log` stays `None` until a log has been persisted.
pub ghost struct StepRow {
    pub id: u32,
    pub job_id: u32,
    pub pipeline_id: u32,
    pub config: StepView,
    pub status: ExecutionStatus,
    pub log: Option<Seq<u8>>,
}

/// An entry of the append-only error log.
pub ghost struct ErrorRow {
    pub id: u32,
    pub pipeline_id: u32,
    pub timestamp: u64,
    pub message: Seq<char>,
}

/// What the store holds. Rows of each table are kept in insertion order.
pub ghost struct StoreView {
    pub pipelines: Seq<PipelineRow>,
    pub jobs: Seq<JobRow>,
    pub steps: Seq<StepRow>,
    pub objects: Map<(Seq<char>, Seq<u8>), Seq<u8>>,
    pub errors: Seq<ErrorRow>,
    pub next_pipeline_id: u32,
    pub next_job_id: u32,
    pub next_step_id: u32,
    pub next_error_id: u32,
}

/// Which rows a bulk status update touches.
#[derive(Clone, Copy, Debug, PartialEq, Eq, Structural)]
pub enum Selector {
    /// The row whose id is the key.
    ById,
    /// The rows of the job whose id is the key.
    ByJob,
    /// The rows of the pipeline whose id is the key.
    ByPipeline,
}

pub open spec fn job_selected(r: JobRow, sel: Selector, key: u32) -> bool {
    match sel {
        Selector::ByPipeline => r.pipeline_id == key,
        _ => r.id == key,
    }
}

pub open spec fn step_selected(r: StepRow, sel: Selector, key: u32) -> bool {
    match sel {
        Selector::ById => r.id == key,
        Selector::ByJob => r.job_id == key,
        Selector::ByPipeline => r.pipeline_id == key,
    }
}

/// The status a row takes when `s` is written: a guarded write leaves a
/// terminal status in place.
pub open spec fn next_status(cur: ExecutionStatus, s: ExecutionStatus, guarded: bool) -> ExecutionStatus {
    if guarded && cur.is_terminal() {
        cur
    } else {
        s
    }
}

/// A step belongs to the pipeline of its job.
pub open spec fn steps_follow_jobs(steps: Seq<StepRow>, jobs: Seq<JobRow>) -> bool {
    forall|a: int, b: int|
        #![trigger steps[a], jobs[b]]
        0 <= a < steps.len() && 0 <= b < jobs.len() && steps[a].job_id == jobs[b].id ==> steps[a].pipeline_id
            == jobs[b].pipeline_id
}

proof fn lemma_follow_remove_step(steps: Seq<StepRow>, jobs: Seq<JobRow>, i: int)
    requires
        steps_follow_jobs(steps, jobs),
        0 <= i < steps.len(),
    ensures
        steps_follow_jobs(steps.remove(i), jobs),
{
    let r = steps.remove(i);
    assert forall|a: int, b: int|
        #![trigger r[a], jobs[b]]
        0 <= a < r.len() && 0 <= b < jobs.len() && r[a].job_id == jobs[b].id implies r[a].pipeline_id
            == jobs[b].pipeline_id by {
        let a2 = if a < i { a } else { a + 1 };
        assert(r[a] == steps[a2]);
    }
}

proof fn lemma_follow_remove_job(steps: Seq<StepRow>, jobs: Seq<JobRow>, i: int)
    requires
        steps_follow_jobs(steps, jobs),
        0 <= i < jobs.len(),
    ensures
        steps_follow_jobs(steps, jobs.remove(i)),
{
    let r = jobs.remove(i);
    assert forall|a: int, b: int|
        #![trigger steps[a], r[b]]
        0 <= a < steps.len() && 0 <= b < r.len() && steps[a].job_id == r[b].id implies steps[a].pipeline_id
            == r[b].pipeline_id by {
        let b2 = if b < i { b } else { b + 1 };
        assert(r[b] == jobs[b2]);
    }
}

proof fn lemma_follow_push_job(steps: Seq<StepRow>, jobs: Seq<JobRow>, row: JobRow)
    requires
        steps_follow_jobs(steps, jobs),
        forall|a: int| 0 <= a < steps.len() ==> (#[trigger] steps[a]).job_id != row.id,
    ensures
        steps_follow_jobs(steps, jobs.push(row)),
{
    let r = jobs.push(row);
    assert forall|a: int, b: int|
        #![trigger steps[a], r[b]]
        0 <= a < steps.len() && 0 <= b < r.len() && steps[a].job_id == r[b].id implies steps[a].pipeline_id
            == r[b].pipeline_id by {
        if b < jobs.len() {
            assert(r[b] == jobs[b]);
        }
    }
}

proof fn lemma_follow_push_step(steps: Seq<StepRow>, jobs: Seq<JobRow>, row: StepRow)
    requires
        steps_follow_jobs(steps, jobs),
        forall|b: int| 0 <= b < jobs.len() && (#[trigger] jobs[b]).id == row.job_id ==> jobs[b].pipeline_id == row.pipeline_id,
    ensures
        steps_follow_jobs(steps.push(row), jobs),
{
    let r = steps.push(row);
    assert forall|a: int, b: int|
        #![trigger r[a], jobs[b]]
        0 <= a < r.len() && 0 <= b < jobs.len() && r[a].job_id == jobs[b].id implies r[a].pipeline_id
            == jobs[b].pipeline_id by {
        if a < steps.len() {
            assert(r[a] == steps[a]);
        }
    }
}

/// Ids strictly increase along the sequence and stay below `next`.
pub open spec fn ids_fresh(ids: Seq<u32>, next: u32) -> bool {
    &&& forall|i: int, j: int| 0 <= i < j < ids.len() ==> ids[i] < ids[j]
    &&& forall|i: int| 0 <= i < ids.len() ==> #[trigger] ids[i] < next
}


/// The ids of the rows of `rows` that belong to pipeline `pid`, in order.
pub open spec fn job_ids_in(rows: Seq<JobRow>, pid: u32) -> Seq<u32> {
    rows.filter(|r: JobRow| r.pipeline_id == pid).map_values(|r: JobRow| r.id)
}

/// The rows of `rows` that belong to job `jid`, in order.
pub open spec fn step_rows_in(rows: Seq<StepRow>, jid: u32) -> Seq<StepRow> {
    rows.filter(|r: StepRow| r.job_id == jid)
}

/// How a step row is reported.
pub open spec fn step_status_of(r: StepRow) -> StepStatusView {
    StepStatusView { id: r.id, config: r.config, status: r.status, output: r.log }
}

/// The bytes persisted as a step's log; empty until one is written.
pub open spec fn log_bytes(r: StepRow) -> Seq<u8> {
    match r.log {
        Some(l) => l,
        None => Seq::empty(),
    }
}

proof fn lemma_job_ids_push(rows: Seq<JobRow>, x: JobRow, pid: u32)
    ensures
        job_ids_in(rows.push(x), pid) == if x.pipeline_id == pid {
            job_ids_in(rows, pid).push(x.id)
        } else {
            job_ids_in(rows, pid)
        },
{
    rows.lemma_filter_push(x, |r: JobRow| r.pipeline_id == pid);
    let f = rows.filter(|r: JobRow| r.pipeline_id == pid);
    if x.pipeline_id == pid {
        assert(f.push(x).map_values(|r: JobRow| r.id) =~= f.map_values(|r: JobRow| r.id).push(x.id));
    }
}

proof fn lemma_step_rows_push(rows: Seq<StepRow>, x: StepRow, jid: u32)
    ensures
        step_rows_in(rows.push(x), jid) == if x.job_id == jid {
            step_rows_in(rows, jid).push(x)
        } else {
            step_rows_in(rows, jid)
        },
{
    rows.lemma_filter_push(x, |r: StepRow| r.job_id == jid);
}

pub(crate) proof fn lemma_unique_index(ids: Seq<u32>, next: u32, a: int, b: int)
    requires
        ids_fresh(ids, next),
        0 <= a < ids.len(),
        0 <= b < ids.len(),
        ids[a] == ids[b],
    ensures
        a == b,
{
    if a < b {
        assert(ids[a] < ids[b]);
    } else if b < a {
        assert(ids[b] < ids[a]);
    }
}

pub open spec fn pipelines_kept(rows: Seq<PipelineRow>, pid: u32) -> Seq<PipelineRow> {
    rows.filter(|r: PipelineRow| r.id != pid)
}

pub open spec fn jobs_kept(rows: Seq<JobRow>, pid: u32) -> Seq<JobRow> {
    rows.filter(|r: JobRow| r.pipeline_id != pid)
}

pub open spec fn steps_kept(rows: Seq<StepRow>, pid: u32) -> Seq<StepRow> {
    rows.filter(|r: StepRow| r.pipeline_id != pid)
}

/// The number of steps over `jobs`.
pub open spec fn step_count(jobs: Seq<JobView>) -> nat
    decreases jobs.len(),
{
    if jobs.len() == 0 {
        0
    } else {
        step_count(jobs.drop_last()) + jobs.last().steps.len()
    }
}

/// The job rows that a new pipeline `pid` gets, ids counting from `first`.
pub open spec fn new_job_rows(pid: u32, first: u32, jobs: Seq<JobView>) -> Seq<JobRow> {
    Seq::new(
        jobs.len(),
        |j: int|
            JobRow {
                id: (first + j) as u32,
                pipeline_id: pid,
                config: jobs[j],
                status: ExecutionStatus::Pending,
                current_step: 0,
            },
    )
}

/// The step rows of one new job, ids counting from `first`.
pub open spec fn job_step_rows(pid: u32, job_id: u32, first: int, steps: Seq<StepView>) -> Seq<StepRow> {
    Seq::new(
        steps.len(),
        |i: int|
            StepRow {
                id: (first + i) as u32,
                job_id,
                pipeline_id: pid,
                config: steps[i],
                status: ExecutionStatus::Pending,
                log: None,
            },
    )
}

/// The step rows that a new pipeline `pid` gets: job by job, each job's
/// steps in declared order, ids counting from `first_step`.
pub open spec fn new_step_rows(pid: u32, first_job: u32, first_step: u32, jobs: Seq<JobView>) -> Seq<StepRow>
    decreases jobs.len(),
{
    if jobs.len() == 0 {
        Seq::empty()
    } else {
        let k = jobs.len() - 1;
        new_step_rows(pid, first_job, first_step, jobs.drop_last()) + job_step_rows(
            pid,
            (first_job + k) as u32,
            first_step + step_count(jobs.drop_last()),
            jobs[k].steps,
        )
    }
}

proof fn lemma_step_count_prefix(jobs: Seq<JobView>, j: int)
    requires
        0 <= j <= jobs.len(),
    ensures
        step_count(jobs.take(j)) <= step_count(jobs),
    decreases jobs.len(),
{
    if j < jobs.len() {
        assert(jobs.drop_last().take(j) =~= jobs.take(j));
        lemma_step_count_prefix(jobs.drop_last(), j);
    } else {
        assert(jobs.take(j) =~= jobs);
    }
}

proof fn lemma_fresh_push(ids: Seq<u32>, next: u32)
    requires
        ids_fresh(ids, next),
        next < u32::MAX,
    ensures
        ids_fresh(ids.push(next), (next + 1) as u32),
{
}

proof fn lemma_fresh_remove(ids: Seq<u32>, next: u32, i: int)
    requires
        ids_fresh(ids, next),
        0 <= i < ids.len(),
    ensures
        ids_fresh(ids.remove(i), next),
{
    ids.remove_ensures(i);
    let r = ids.remove(i);
    assert forall|a: int, b: int| 0 <= a < b < r.len() implies r[a] < r[b] by {
        let a2 = if a < i { a } else { a + 1 };
        let b2 = if b < i { b } else { b + 1 };
        assert(r[a] == ids[a2] && r[b] == ids[b2]);
    }
}

proof fn lemma_filter_take<A>(rows: Seq<A>, k: int, p: spec_fn(A) -> bool)
    requires
        0 <= k < rows.len(),
    ensures
        rows.take(k + 1).filter(p) == if p(rows[k]) {
            rows.take(k).filter(p).push(rows[k])
        } else {
            rows.take(k).filter(p)
        },
{
    assert(rows.take(k + 1) =~= rows.take(k).push(rows[k]));
    rows.take(k).lemma_filter_push(rows[k], p);
}

proof fn lemma_step_count_take(jobs: Seq<JobView>, j: int)
    requires
        0 <= j < jobs.len(),
    ensures
        step_count(jobs.take(j + 1)) == step_count(jobs.take(j)) + jobs[j].steps.len(),
        step_count(jobs.take(j + 1)) <= step_count(jobs),
{
    assert(jobs.take(j + 1).drop_last() =~= jobs.take(j));
    lemma_step_count_prefix(jobs, j + 1);
}

proof fn lemma_new_step_rows_take(pid: u32, first_job: u32, first_step: u32, jobs: Seq<JobView>, j: int)
    requires
        0 <= j < jobs.len(),
    ensures
        new_step_rows(pid, first_job, first_step, jobs.take(j + 1)) == new_step_rows(pid, first_job, first_step, jobs.take(j))
            + job_step_rows(pid, (first_job + j) as u32, first_step + step_count(jobs.take(j)), jobs[j].steps),
{
    assert(jobs.take(j + 1).drop_last() =~= jobs.take(j));
    assert(jobs.take(j + 1)[j] == jobs[j]);
}

/// Whether `config`'s jobs hold at most `room` steps in all.
fn steps_fit(config: &Config, room: u64) -> (r: bool)
    ensures
        r == (step_count(config@.jobs) <= room),
{
    let ghost jobs = config@.jobs;
    let mut acc: u64 = 0;
    let mut j: usize = 0;
    while j < config.jobs.len()
        invariant
            0 <= j <= jobs.len(),
            jobs == config@.jobs,
            acc == step_count(jobs.take(j as int)),
            acc <= room,
        decreases jobs.len() - j,
    {
        proof {
            lemma_step_count_take(jobs, j as int);
        }
        let n = config.jobs[j].steps.len();
        assert(n == jobs[j as int].steps.len());
        if n as u64 > room - acc {
            return false;
        }
        acc = acc + n as u64;
        j += 1;
    }
    assert(jobs.take(j as int) =~= jobs);
    true
}

impl StoreView {
    /// A store with no rows and no objects, handing out ids from 1.
    pub open spec fn empty() -> StoreView {
        StoreView {
            pipelines: Seq::empty(),
            jobs: Seq::empty(),
            steps: Seq::empty(),
            objects: Map::empty(),
            errors: Seq::empty(),
            next_pipeline_id: 1,
            next_job_id: 1,
            next_step_id: 1,
            next_error_id: 1,
        }
    }

    pub open spec fn pipeline_ids(self) -> Seq<u32> {
        self.pipelines.map_values(|r: PipelineRow| r.id)
    }

    pub open spec fn job_ids(self) -> Seq<u32> {
        self.jobs.map_values(|r: JobRow| r.id)
    }

    pub open spec fn step_ids(self) -> Seq<u32> {
        self.steps.map_values(|r: StepRow| r.id)
    }

    pub open spec fn error_ids(self) -> Seq<u32> {
        self.errors.map_values(|r: ErrorRow| r.id)
    }

    /// Ids are unique, increase in insertion order, and stay below the next
    /// id to hand out.
    pub open spec fn inv(self) -> bool {
        &&& ids_fresh(self.pipeline_ids(), self.next_pipeline_id)
        &&& ids_fresh(self.job_ids(), self.next_job_id)
        &&& ids_fresh(self.step_ids(), self.next_step_id)
        &&& ids_fresh(self.error_ids(), self.next_error_id)
        &&& forall|i: int| 0 <= i < self.jobs.len() ==> (#[trigger] self.jobs[i]).pipeline_id < self.next_pipeline_id
        &&& forall|i: int| 0 <= i < self.steps.len() ==> (#[trigger] self.steps[i]).job_id < self.next_job_id
            && self.steps[i].pipeline_id < self.next_pipeline_id
        &&& steps_follow_jobs(self.steps, self.jobs)
    }

    pub open spec fn has_pipeline(self, id: u32) -> bool {
        exists|i: int| 0 <= i < self.pipelines.len() && (#[trigger] self.pipelines[i]).id == id
    }

    pub open spec fn has_job(self, id: u32) -> bool {
        exists|i: int| 0 <= i < self.jobs.len() && (#[trigger] self.jobs[i]).id == id
    }

    pub open spec fn has_step(self, id: u32) -> bool {
        exists|i: int| 0 <= i < self.steps.len() && (#[trigger] self.steps[i]).id == id
    }

    /// The pipeline row with id `id` (meaningful when `has_pipeline(id)`).
    pub open spec fn pipeline(self, id: u32) -> PipelineRow {
        self.pipelines[choose|i: int| 0 <= i < self.pipelines.len() && (#[trigger] self.pipelines[i]).id == id]
    }

    pub open spec fn job(self, id: u32) -> JobRow {
        self.jobs[choose|i: int| 0 <= i < self.jobs.len() && (#[trigger] self.jobs[i]).id == id]
    }

    pub open spec fn step(self, id: u32) -> StepRow {
        self.steps[choose|i: int| 0 <= i < self.steps.len() && (#[trigger] self.steps[i]).id == id]
    }

    /// The ids of the jobs of pipeline `pid`, in insertion order.
    pub open spec fn jobs_of(self, pid: u32) -> Seq<u32> {
        self.jobs.filter(|r: JobRow| r.pipeline_id == pid).map_values(|r: JobRow| r.id)
    }

    /// The step rows of job `jid`, in insertion order.
    pub open spec fn steps_of(self, jid: u32) -> Seq<StepRow> {
        self.steps.filter(|r: StepRow| r.job_id == jid)
    }

    pub open spec fn with_pipeline_status(self, id: u32, s: ExecutionStatus, guarded: bool) -> StoreView {
        StoreView {
            pipelines: self.pipelines.map_values(
                |r: PipelineRow|
                    if r.id == id {
                        PipelineRow { status: next_status(r.status, s, guarded), ..r }
                    } else {
                        r
                    },
            ),
            ..self
        }
    }

    pub open spec fn with_job_status(self, sel: Selector, key: u32, s: ExecutionStatus, guarded: bool) -> StoreView {
        StoreView {
            jobs: self.jobs.map_values(
                |r: JobRow|
                    if job_selected(r, sel, key) {
                        JobRow { status: next_status(r.status, s, guarded), ..r }
                    } else {
                        r
                    },
            ),
            ..self
        }
    }

    pub open spec fn with_step_status(self, sel: Selector, key: u32, s: ExecutionStatus, guarded: bool) -> StoreView {
        StoreView {
            steps: self.steps.map_values(
                |r: StepRow|
                    if step_selected(r, sel, key) {
                        StepRow { status: next_status(r.status, s, guarded), ..r }
                    } else {
                        r
                    },
            ),
            ..self
        }
    }

    pub open spec fn with_step_log(self, id: u32, log: Seq<u8>) -> StoreView {
        StoreView {
            steps: self.steps.map_values(
                |r: StepRow| if r.id == id { StepRow { log: Some(log), ..r } } else { r },
            ),
            ..self
        }
    }

    /// Whether step `sid` counts as cancelled: it, its job or its pipeline
    /// is `Cancelled`. `None` where a row that the answer needs is missing.
    pub open spec fn cancellation(self, sid: u32) -> Option<bool> {
        if !self.has_step(sid) {
            None
        } else if self.step(sid).status is Cancelled {
            Some(true)
        } else if !self.has_job(self.step(sid).job_id) {
            None
        } else if self.job(self.step(sid).job_id).status is Cancelled {
            Some(true)
        } else if !self.has_pipeline(self.step(sid).pipeline_id) {
            None
        } else {
            Some(self.pipeline(self.step(sid).pipeline_id).status is Cancelled)
        }
    }

    /// The effect of storing `value` under `(namespace, key)`.
    pub open spec fn put_object_spec(self, namespace: Seq<char>, key: Seq<u8>, value: Seq<u8>) -> StoreView {
        StoreView { objects: self.objects.insert((namespace, key), value), ..self }
    }

    /// The effect of recording an error for pipeline `pid`: a non-terminal
    /// pipeline becomes `Failed`, and the error log gains an entry.
    pub open spec fn record_error_spec(self, pid: u32, message: Seq<char>, timestamp: u64) -> StoreView {
        let failed = self.with_pipeline_status(pid, ExecutionStatus::Failed, true);
        StoreView {
            errors: failed.errors.push(
                ErrorRow { id: self.next_error_id, pipeline_id: pid, timestamp, message },
            ),
            next_error_id: (self.next_error_id + 1) as u32,
            ..failed
        }
    }

    /// Whether pipeline `id` is present and has completed or failed.
    pub open spec fn finished_pipeline(self, id: u32) -> bool {
        self.has_pipeline(id) && (self.pipeline(id).status is Completed || self.pipeline(id).status is Failed)
    }

    /// The effect of cancelling pipeline `id`: unless it has already
    /// completed or failed, it, its jobs and their steps become `Cancelled`.
    pub open spec fn cancel_pipeline_spec(self, id: u32) -> StoreView {
        if self.finished_pipeline(id) {
            self
        } else {
            self.with_pipeline_status(id, ExecutionStatus::Cancelled, false)
                .with_job_status(Selector::ByPipeline, id, ExecutionStatus::Cancelled, false)
                .with_step_status(Selector::ByPipeline, id, ExecutionStatus::Cancelled, false)
        }
    }

    /// The effect of cancelling job `id`: it and its steps become `Cancelled`.
    pub open spec fn cancel_job_spec(self, id: u32) -> StoreView {
        self.with_job_status(Selector::ById, id, ExecutionStatus::Cancelled, false)
            .with_step_status(Selector::ByJob, id, ExecutionStatus::Cancelled, false)
    }

    /// The effect of deleting pipeline `id` with its jobs and steps.
    pub open spec fn delete_pipeline_spec(self, id: u32) -> StoreView {
        StoreView {
            pipelines: pipelines_kept(self.pipelines, id),
            jobs: jobs_kept(self.jobs, id),
            steps: steps_kept(self.steps, id),
            ..self
        }
    }

    /// Whether the id counters leave room for inserting `ctx`.
    pub open spec fn has_room(self, ctx: ContextView) -> bool {
        &&& self.next_pipeline_id < u32::MAX
        &&& self.next_job_id + ctx.config.jobs.len() <= u32::MAX
        &&& self.next_step_id + step_count(ctx.config.jobs) <= u32::MAX
    }

    /// The effect of inserting submission `ctx`: a `Pending` pipeline row,
    /// then a `Pending` row for each job and for each of its steps, in
    /// declared order, with fresh ids.
    pub open spec fn insert_pipeline_spec(self, ctx: ContextView) -> StoreView {
        let jobs = ctx.config.jobs;
        let pid = self.next_pipeline_id;
        StoreView {
            pipelines: self.pipelines.push(PipelineRow { id: pid, context: ctx, status: ExecutionStatus::Pending }),
            jobs: self.jobs + new_job_rows(pid, self.next_job_id, jobs),
            steps: self.steps + new_step_rows(pid, self.next_job_id, self.next_step_id, jobs),
            next_pipeline_id: (pid + 1) as u32,
            next_job_id: (self.next_job_id + jobs.len()) as u32,
            next_step_id: (self.next_step_id + step_count(jobs)) as u32,
            ..self
        }
    }
}

struct PipelineRecord {
    id: u32,
    context: Context,
    status: ExecutionStatus,
}

impl PipelineRecord {
    spec fn row(&self) -> PipelineRow {
        PipelineRow { id: self.id, context: self.context@, status: self.status }
    }
}

struct JobRecord {
    id: u32,
    pipeline_id: u32,
    config: Job,
    status: ExecutionStatus,
    current_step: u32,
}

impl JobRecord {
    spec fn row(&self) -> JobRow {
        JobRow {
            id: self.id,
            pipeline_id: self.pipeline_id,
            config: self.config@,
            status: self.status,
            current_step: self.current_step,
        }
    }
}

struct StepRecord {
    id: u32,
    job_id: u32,
    pipeline_id: u32,
    config: Step,
    status: ExecutionStatus,
    log: Option<Vec<u8>>,
}

impl StepRecord {
    spec fn row(&self) -> StepRow {
        StepRow {
            id: self.id,
            job_id: self.job_id,
            pipeline_id: self.pipeline_id,
            config: self.config@,
            status: self.status,
            log: match self.log {
                Some(l) => Some(l@),
                None => None,
            },
        }
    }
}

struct ObjectRecord {
    namespace: String,
    key: Vec<u8>,
    value: Vec<u8>,
}

struct ErrorRecord {
    id: u32,
    pipeline_id: u32,
    timestamp: u64,
    message: String,
}

impl ErrorRecord {
    spec fn row(&self) -> ErrorRow {
        ErrorRow { id: self.id, pipeline_id: self.pipeline_id, timestamp: self.timestamp, message: self.message@ }
    }
}

/// The single source of truth for pipeline state: tables of pipelines, jobs,
/// steps, objects and errors. Each operation is one atomic transaction.
pub struct Store {
    pipelines: Vec<PipelineRecord>,
    jobs: Vec<JobRecord>,
    steps: Vec<StepRecord>,
    objects: Vec<ObjectRecord>,
    object_map: Ghost<Map<(Seq<char>, Seq<u8>), Seq<u8>>>,
    errors: Vec<ErrorRecord>,
    next_pipeline_id: u32,
    next_job_id: u32,
    next_step_id: u32,
    next_error_id: u32,
}

spec fn object_key(o: ObjectRecord) -> (Seq<char>, Seq<u8>) {
    (o.namespace@, o.key@)
}

impl View for Store {
    type V = StoreView;

    closed spec fn view(&self) -> StoreView {
        StoreView {
            pipelines: self.pipelines@.map_values(|r: PipelineRecord| r.row()),
            jobs: self.jobs@.map_values(|r: JobRecord| r.row()),
            steps: self.steps@.map_values(|r: StepRecord| r.row()),
            objects: self.object_map@,
            errors: self.errors@.map_values(|r: ErrorRecord| r.row()),
            next_pipeline_id: self.next_pipeline_id,
            next_job_id: self.next_job_id,
            next_step_id: self.next_step_id,
            next_error_id: self.next_error_id,
        }
    }
}

impl Store {
    /// The object rows agree with the object map, one row per key.
    closed spec fn objects_wf(&self) -> bool {
        &&& forall|i: int, j: int|
            0 <= i < j < self.objects@.len() ==> object_key(self.objects@[i]) != object_key(self.objects@[j])
        &&& forall|i: int|
            0 <= i < self.objects@.len() ==> #[trigger] self.object_map@.contains_key(object_key(self.objects@[i]))
                && self.object_map@[object_key(self.objects@[i])] == self.objects@[i].value@
        &&& forall|k: (Seq<char>, Seq<u8>)|
            #[trigger] self.object_map@.contains_key(k) ==> exists|i: int|
                0 <= i < self.objects@.len() && object_key(#[trigger] self.objects@[i]) == k
    }

    pub closed spec fn wf(&self) -> bool {
        &&& self@.inv()
        &&& self.objects_wf()
    }

    pub proof fn lemma_wf_inv(&self)
        requires
            self.wf(),
        ensures
            self@.inv(),
    {
    }

    /// An empty store with every table in place.
    pub fn new() -> (r: Store)
        ensures
            r.wf(),
            r@ == StoreView::empty(),
    {
        let r = Store {
            pipelines: Vec::new(),
            jobs: Vec::new(),
            steps: Vec::new(),
            objects: Vec::new(),
            object_map: Ghost(Map::empty()),
            errors: Vec::new(),
            next_pipeline_id: 1,
            next_job_id: 1,
            next_step_id: 1,
            next_error_id: 1,
        };
        assert(r@.pipeline_ids() =~= Seq::<u32>::empty());
        assert(r@.job_ids() =~= Seq::<u32>::empty());
        assert(r@.step_ids() =~= Seq::<u32>::empty());
        assert(r@.error_ids() =~= Seq::<u32>::empty());
        assert(r@.pipelines =~= Seq::<PipelineRow>::empty());
        assert(r@.jobs =~= Seq::<JobRow>::empty());
        assert(r@.steps =~= Seq::<StepRow>::empty());
        assert(r@.errors =~= Seq::<ErrorRow>::empty());
        assert(r@ == StoreView::empty());
        r
    }

    fn write_pipeline_status(&mut self, id: u32, s: ExecutionStatus, guarded: bool)
        requires
            old(self).wf(),
        ensures
            final(self).wf(),
            final(self)@ == old(self)@.with_pipeline_status(id, s, guarded),
    {
        let ghost old_v = self@;
        let mut i: usize = 0;
        while i < self.pipelines.len()
            invariant
                0 <= i <= self.pipelines@.len(),
                self.pipelines@.len() == old_v.pipelines.len(),
                forall|j: int| 0 <= j < i ==> (#[trigger] self.pipelines@[j]).row()
                    == old_v.with_pipeline_status(id, s, guarded).pipelines[j],
                forall|j: int| i <= j < self.pipelines@.len() ==> (#[trigger] self.pipelines@[j]).row()
                    == old_v.pipelines[j],
                self.jobs == old(self).jobs,
                self.steps == old(self).steps,
                self.objects == old(self).objects,
                self.object_map == old(self).object_map,
                self.errors == old(self).errors,
                self.next_pipeline_id == old(self).next_pipeline_id,
                self.next_job_id == old(self).next_job_id,
                self.next_step_id == old(self).next_step_id,
                self.next_error_id == old(self).next_error_id,
                old_v == old(self)@,
            decreases self.pipelines@.len() - i,
        {
            if self.pipelines[i].id == id {
                let cur = self.pipelines[i].status;
                if !(guarded && cur.is_terminal()) {
                    self.pipelines[i].status = s;
                }
            }
            i += 1;
        }
        assert(self@.pipelines =~= old_v.with_pipeline_status(id, s, guarded).pipelines);
        assert(self@ =~= old_v.with_pipeline_status(id, s, guarded));
        assert(self@.pipeline_ids() =~= old_v.pipeline_ids());
    }

    fn write_job_status(&mut self, sel: Selector, key: u32, s: ExecutionStatus, guarded: bool)
        requires
            old(self).wf(),
        ensures
            final(self).wf(),
            final(self)@ == old(self)@.with_job_status(sel, key, s, guarded),
    {
        let ghost old_v = self@;
        let mut i: usize = 0;
        while i < self.jobs.len()
            invariant
                0 <= i <= self.jobs@.len(),
                self.jobs@.len() == old_v.jobs.len(),
                forall|j: int| 0 <= j < i ==> (#[trigger] self.jobs@[j]).row()
                    == old_v.with_job_status(sel, key, s, guarded).jobs[j],
                forall|j: int| i <= j < self.jobs@.len() ==> (#[trigger] self.jobs@[j]).row()
                    == old_v.jobs[j],
                self.pipelines == old(self).pipelines,
                self.steps == old(self).steps,
                self.objects == old(self).objects,
                self.object_map == old(self).object_map,
                self.errors == old(self).errors,
                self.next_pipeline_id == old(self).next_pipeline_id,
                self.next_job_id == old(self).next_job_id,
                self.next_step_id == old(self).next_step_id,
                self.next_error_id == old(self).next_error_id,
                old_v == old(self)@,
            decreases self.jobs@.len() - i,
        {
            let hit = match sel {
                Selector::ByPipeline => self.jobs[i].pipeline_id == key,
                _ => self.jobs[i].id == key,
            };
            if hit {
                let cur = self.jobs[i].status;
                if !(guarded && cur.is_terminal()) {
                    self.jobs[i].status = s;
                }
            }
            i += 1;
        }
        assert(self@.jobs =~= old_v.with_job_status(sel, key, s, guarded).jobs);
        assert(self@ =~= old_v.with_job_status(sel, key, s, guarded));
        assert(self@.job_ids() =~= old_v.job_ids());
        assert(ids_fresh(self@.job_ids(), self@.next_job_id));
        assert(self@.inv());
    }

    fn write_step_status(&mut self, sel: Selector, key: u32, s: ExecutionStatus, guarded: bool)
        requires
            old(self).wf(),
        ensures
            final(self).wf(),
            final(self)@ == old(self)@.with_step_status(sel, key, s, guarded),
    {
        let ghost old_v = self@;
        let mut i: usize = 0;
        while i < self.steps.len()
            invariant
                0 <= i <= self.steps@.len(),
                self.steps@.len() == old_v.steps.len(),
                forall|j: int| 0 <= j < i ==> (#[trigger] self.steps@[j]).row()
                    == old_v.with_step_status(sel, key, s, guarded).steps[j],
                forall|j: int| i <= j < self.steps@.len() ==> (#[trigger] self.steps@[j]).row()
                    == old_v.steps[j],
                self.pipelines == old(self).pipelines,
                self.jobs == old(self).jobs,
                self.objects == old(self).objects,
                self.object_map == old(self).object_map,
                self.errors == old(self).errors,
                self.next_pipeline_id == old(self).next_pipeline_id,
                self.next_job_id == old(self).next_job_id,
                self.next_step_id == old(self).next_step_id,
                self.next_error_id == old(self).next_error_id,
                old_v == old(self)@,
            decreases self.steps@.len() - i,
        {
            let hit = match sel {
                Selector::ById => self.steps[i].id == key,
                Selector::ByJob => self.steps[i].job_id == key,
                Selector::ByPipeline => self.steps[i].pipeline_id == key,
            };
            if hit {
                let cur = self.steps[i].status;
                if !(guarded && cur.is_terminal()) {
                    self.steps[i].status = s;
                }
            }
            i += 1;
        }
        assert(self@.steps =~= old_v.with_step_status(sel, key, s, guarded).steps);
        assert(self@ =~= old_v.with_step_status(sel, key, s, guarded));
        assert(self@.step_ids() =~= old_v.step_ids());
    }

    /// Overwrites the status of pipeline `id`.
    pub fn set_pipeline_status(&mut self, id: u32, status: ExecutionStatus)
        requires
            old(self).wf(),
        ensures
            final(self).wf(),
            final(self)@ == old(self)@.with_pipeline_status(id, status, false),
    {
        self.write_pipeline_status(id, status, false)
    }

    /// Overwrites the status of job `id`.
    pub fn set_job_status(&mut self, id: u32, status: ExecutionStatus)
        requires
            old(self).wf(),
        ensures
            final(self).wf(),
            final(self)@ == old(self)@.with_job_status(Selector::ById, id, status, false),
    {
        self.write_job_status(Selector::ById, id, status, false)
    }

    /// Overwrites the status of step `id`.
    pub fn set_step_status(&mut self, id: u32, status: ExecutionStatus)
        requires
            old(self).wf(),
        ensures
            final(self).wf(),
            final(self)@ == old(self)@.with_step_status(Selector::ById, id, status, false),
    {
        self.write_step_status(Selector::ById, id, status, false)
    }

    /// Writes `status` to pipeline `id` unless its status is terminal.
    pub fn advance_pipeline_status(&mut self, id: u32, status: ExecutionStatus)
        requires
            old(self).wf(),
        ensures
            final(self).wf(),
            final(self)@ == old(self)@.with_pipeline_status(id, status, true),
    {
        self.write_pipeline_status(id, status, true)
    }

    /// Writes `status` to job `id` unless its status is terminal.
    pub fn advance_job_status(&mut self, id: u32, status: ExecutionStatus)
        requires
            old(self).wf(),
        ensures
            final(self).wf(),
            final(self)@ == old(self)@.with_job_status(Selector::ById, id, status, true),
    {
        self.write_job_status(Selector::ById, id, status, true)
    }

    /// Writes `status` to step `id` unless its status is terminal.
    pub fn advance_step_status(&mut self, id: u32, status: ExecutionStatus)
        requires
            old(self).wf(),
        ensures
            final(self).wf(),
            final(self)@ == old(self)@.with_step_status(Selector::ById, id, status, true),
    {
        self.write_step_status(Selector::ById, id, status, true)
    }

    /// Marks pipeline `id`, all its jobs and all their steps `Cancelled`,
    /// unless the pipeline has already completed or failed.
    pub fn cancel_pipeline(&mut self, id: u32)
        requires
            old(self).wf(),
        ensures
            final(self).wf(),
            final(self)@ == old(self)@.cancel_pipeline_spec(id),
    {
        if let Ok(s) = self.pipeline_status(id) {
            if s == ExecutionStatus::Completed || s == ExecutionStatus::Failed {
                return;
            }
        }
        self.write_pipeline_status(id, ExecutionStatus::Cancelled, false);
        self.write_job_status(Selector::ByPipeline, id, ExecutionStatus::Cancelled, false);
        self.write_step_status(Selector::ByPipeline, id, ExecutionStatus::Cancelled, false);
    }

    /// Marks job `id` and all its steps `Cancelled`.
    pub fn cancel_job(&mut self, id: u32)
        requires
            old(self).wf(),
        ensures
            final(self).wf(),
            final(self)@ == old(self)@.cancel_job_spec(id),
    {
        self.write_job_status(Selector::ById, id, ExecutionStatus::Cancelled, false);
        self.write_step_status(Selector::ByJob, id, ExecutionStatus::Cancelled, false);
    }

    fn pipeline_index(&self, id: u32) -> (r: Option<usize>)
        requires
            self.wf(),
        ensures
            match r {
                Some(i) => i < self@.pipelines.len() && self@.pipelines[i as int].id == id
                    && self@.pipeline(id) == self@.pipelines[i as int] && self@.has_pipeline(id),
                None => !self@.has_pipeline(id),
            },
    {
        let mut i: usize = 0;
        while i < self.pipelines.len()
            invariant
                0 <= i <= self.pipelines@.len(),
                forall|j: int| 0 <= j < i ==> (#[trigger] self@.pipelines[j]).id != id,
                self.wf(),
            decreases self.pipelines@.len() - i,
        {
            if self.pipelines[i].id == id {
                proof {
                    let v = self@;
                    assert(v.pipelines[i as int].id == id);
                    let k = choose|k: int| 0 <= k < v.pipelines.len() && (#[trigger] v.pipelines[k]).id == id;
                    assert(v.pipeline_ids()[k] == v.pipeline_ids()[i as int]);
                    lemma_unique_index(v.pipeline_ids(), v.next_pipeline_id, k, i as int);
                }
                return Some(i);
            }
            i += 1;
        }
        None
    }

    fn job_index(&self, id: u32) -> (r: Option<usize>)
        requires
            self.wf(),
        ensures
            match r {
                Some(i) => i < self@.jobs.len() && self@.jobs[i as int].id == id
                    && self@.job(id) == self@.jobs[i as int] && self@.has_job(id),
                None => !self@.has_job(id),
            },
    {
        let mut i: usize = 0;
        while i < self.jobs.len()
            invariant
                0 <= i <= self.jobs@.len(),
                forall|j: int| 0 <= j < i ==> (#[trigger] self@.jobs[j]).id != id,
                self.wf(),
            decreases self.jobs@.len() - i,
        {
            if self.jobs[i].id == id {
                proof {
                    let v = self@;
                    assert(v.jobs[i as int].id == id);
                    let k = choose|k: int| 0 <= k < v.jobs.len() && (#[trigger] v.jobs[k]).id == id;
                    assert(v.job_ids()[k] == v.job_ids()[i as int]);
                    lemma_unique_index(v.job_ids(), v.next_job_id, k, i as int);
                }
                return Some(i);
            }
            i += 1;
        }
        None
    }

    fn step_index(&self, id: u32) -> (r: Option<usize>)
        requires
            self.wf(),
        ensures
            match r {
                Some(i) => i < self@.steps.len() && self@.steps[i as int].id == id
                    && self@.step(id) == self@.steps[i as int] && self@.has_step(id),
                None => !self@.has_step(id),
            },
    {
        let mut i: usize = 0;
        while i < self.steps.len()
            invariant
                0 <= i <= self.steps@.len(),
                forall|j: int| 0 <= j < i ==> (#[trigger] self@.steps[j]).id != id,
                self.wf(),
            decreases self.steps@.len() - i,
        {
            if self.steps[i].id == id {
                proof {
                    let v = self@;
                    assert(v.steps[i as int].id == id);
                    let k = choose|k: int| 0 <= k < v.steps.len() && (#[trigger] v.steps[k]).id == id;
                    assert(v.step_ids()[k] == v.step_ids()[i as int]);
                    lemma_unique_index(v.step_ids(), v.next_step_id, k, i as int);
                }
                return Some(i);
            }
            i += 1;
        }
        None
    }

    fn job_ids_of(&self, pid: u32) -> (r: Vec<u32>)
        requires
            self.wf(),
        ensures
            r@ == self@.jobs_of(pid),
    {
        let ghost rows = self@.jobs;
        let mut r: Vec<u32> = Vec::new();
        let mut i: usize = 0;
        while i < self.jobs.len()
            invariant
                0 <= i <= self.jobs@.len(),
                rows == self@.jobs,
                r@ == job_ids_in(rows.take(i as int), pid),
            decreases self.jobs@.len() - i,
        {
            proof {
                assert(rows.take(i + 1) =~= rows.take(i as int).push(rows[i as int]));
                lemma_job_ids_push(rows.take(i as int), rows[i as int], pid);
            }
            if self.jobs[i].pipeline_id == pid {
                r.push(self.jobs[i].id);
            }
            i += 1;
        }
        assert(rows.take(rows.len() as int) =~= rows);
        r
    }

    fn step_statuses_of(&self, jid: u32) -> (r: Vec<StepStatus>)
        requires
            self.wf(),
        ensures
            r@.map_values(|s: StepStatus| s@) == self@.steps_of(jid).map_values(|x: StepRow| step_status_of(x)),
    {
        let ghost rows = self@.steps;
        let mut r: Vec<StepStatus> = Vec::new();
        let mut i: usize = 0;
        while i < self.steps.len()
            invariant
                0 <= i <= self.steps@.len(),
                rows == self@.steps,
                r@.len() == step_rows_in(rows.take(i as int), jid).len(),
                forall|k: int| 0 <= k < r@.len() ==> (#[trigger] r@[k])@ == step_status_of(step_rows_in(rows.take(i as int), jid)[k]),
            decreases self.steps@.len() - i,
        {
            proof {
                assert(rows.take(i + 1) =~= rows.take(i as int).push(rows[i as int]));
                lemma_step_rows_push(rows.take(i as int), rows[i as int], jid);
            }
            if self.steps[i].job_id == jid {
                let rec = &self.steps[i];
                let output = match &rec.log {
                    Some(l) => Some(clone_bytes(l)),
                    None => None,
                };
                let st = StepStatus { id: rec.id, config: rec.config.deep_clone(), status: rec.status, output };
                assert(st@ == step_status_of(rows[i as int]));
                r.push(st);
            }
            i += 1;
        }
        assert(rows.take(rows.len() as int) =~= rows);
        assert(r@.map_values(|s: StepStatus| s@) =~= self@.steps_of(jid).map_values(|x: StepRow| step_status_of(x)));
        r
    }

    /// The status of pipeline `id`, with its job ids in declared order.
    pub fn get_pipeline(&self, id: u32) -> (r: Result<PipelineStatus, PapError>)
        requires
            self.wf(),
        ensures
            r is Ok <==> self@.has_pipeline(id),
            match r {
                Ok(p) => p@ == (PipelineStatusView {
                    id,
                    config: self@.pipeline(id).context.config,
                    status: self@.pipeline(id).status,
                    jobs: self@.jobs_of(id),
                    error: None,
                }),
                Err(e) => e is NotFound,
            },
    {
        match self.pipeline_index(id) {
            None => Err(PapError::NotFound(join("Pipeline ", "not found"))),
            Some(i) => {
                let jobs = self.job_ids_of(id);
                Ok(PipelineStatus {
                    id,
                    config: self.pipelines[i].context.config.deep_clone(),
                    status: self.pipelines[i].status,
                    jobs,
                    error: None,
                })
            },
        }
    }

    /// The status of job `id`, with its steps in declared order.
    pub fn get_job(&self, id: u32) -> (r: Result<JobStatus, PapError>)
        requires
            self.wf(),
        ensures
            r is Ok <==> self@.has_job(id),
            match r {
                Ok(j) => j@ == (JobStatusView {
                    id,
                    config: self@.job(id).config,
                    steps: self@.steps_of(id).map_values(|x: StepRow| step_status_of(x)),
                    status: self@.job(id).status,
                    current_step: Some(self@.job(id).current_step),
                }),
                Err(e) => e is NotFound,
            },
    {
        match self.job_index(id) {
            None => Err(PapError::NotFound(join("Job ", "not found"))),
            Some(i) => {
                let steps = self.step_statuses_of(id);
                Ok(JobStatus {
                    id,
                    config: self.jobs[i].config.deep_clone(),
                    steps,
                    status: self.jobs[i].status,
                    current_step: Some(self.jobs[i].current_step),
                })
            },
        }
    }

    /// The status of step `id`.
    pub fn get_step(&self, id: u32) -> (r: Result<StepStatus, PapError>)
        requires
            self.wf(),
        ensures
            r is Ok <==> self@.has_step(id),
            match r {
                Ok(s) => s@ == step_status_of(self@.step(id)),
                Err(e) => e is NotFound,
            },
    {
        match self.step_index(id) {
            None => Err(PapError::NotFound(join("Step ", "not found"))),
            Some(i) => {
                let rec = &self.steps[i];
                let output = match &rec.log {
                    Some(l) => Some(clone_bytes(l)),
                    None => None,
                };
                Ok(StepStatus { id: rec.id, config: rec.config.deep_clone(), status: rec.status, output })
            },
        }
    }

    /// The persisted log of step `id`; empty while none has been written.
    pub fn get_step_log(&self, id: u32) -> (r: Result<Vec<u8>, PapError>)
        requires
            self.wf(),
        ensures
            r is Ok <==> self@.has_step(id),
            match r {
                Ok(l) => l@ == log_bytes(self@.step(id)),
                Err(e) => e is NotFound,
            },
    {
        match self.step_index(id) {
            None => Err(PapError::NotFound(join("Step log ", "not found"))),
            Some(i) => match &self.steps[i].log {
                Some(l) => Ok(clone_bytes(l)),
                None => Ok(Vec::new()),
            },
        }
    }

    /// The ids of all pipelines, in insertion order.
    pub fn list_pipelines(&self) -> (r: Vec<u32>)
        requires
            self.wf(),
        ensures
            r@ == self@.pipeline_ids(),
    {
        let mut r: Vec<u32> = Vec::new();
        let mut i: usize = 0;
        while i < self.pipelines.len()
            invariant
                0 <= i <= self.pipelines@.len(),
                r@ == self@.pipeline_ids().take(i as int),
            decreases self.pipelines@.len() - i,
        {
            r.push(self.pipelines[i].id);
            i += 1;
            assert(r@ =~= self@.pipeline_ids().take(i as int));
        }
        assert(r@ =~= self@.pipeline_ids());
        r
    }

    /// The ids of all jobs, in insertion order.
    pub fn list_jobs(&self) -> (r: Vec<u32>)
        requires
            self.wf(),
        ensures
            r@ == self@.job_ids(),
    {
        let mut r: Vec<u32> = Vec::new();
        let mut i: usize = 0;
        while i < self.jobs.len()
            invariant
                0 <= i <= self.jobs@.len(),
                r@ == self@.job_ids().take(i as int),
            decreases self.jobs@.len() - i,
        {
            r.push(self.jobs[i].id);
            i += 1;
            assert(r@ =~= self@.job_ids().take(i as int));
        }
        assert(r@ =~= self@.job_ids());
        r
    }

    /// Overwrites the log of step `id`.
    pub fn set_step_log(&mut self, id: u32, log: &Vec<u8>)
        requires
            old(self).wf(),
        ensures
            final(self).wf(),
            final(self)@ == old(self)@.with_step_log(id, log@),
    {
        let ghost old_v = self@;
        let mut i: usize = 0;
        while i < self.steps.len()
            invariant
                0 <= i <= self.steps@.len(),
                self.steps@.len() == old_v.steps.len(),
                forall|j: int| 0 <= j < i ==> (#[trigger] self.steps@[j]).row()
                    == old_v.with_step_log(id, log@).steps[j],
                forall|j: int| i <= j < self.steps@.len() ==> (#[trigger] self.steps@[j]).row()
                    == old_v.steps[j],
                self.pipelines == old(self).pipelines,
                self.jobs == old(self).jobs,
                self.objects == old(self).objects,
                self.object_map == old(self).object_map,
                self.errors == old(self).errors,
                self.next_pipeline_id == old(self).next_pipeline_id,
                self.next_job_id == old(self).next_job_id,
                self.next_step_id == old(self).next_step_id,
                self.next_error_id == old(self).next_error_id,
                old_v == old(self)@,
            decreases self.steps@.len() - i,
        {
            if self.steps[i].id == id {
                self.steps[i].log = Some(clone_bytes(log));
            }
            i += 1;
        }
        assert(self@.steps =~= old_v.with_step_log(id, log@).steps);
        assert(self@ =~= old_v.with_step_log(id, log@));
        assert(self@.step_ids() =~= old_v.step_ids());
    }

    fn object_index(&self, namespace: &str, key: &Vec<u8>) -> (r: Option<usize>)
        requires
            self.wf(),
        ensures
            match r {
                Some(i) => i < self.objects@.len() && object_key(self.objects@[i as int]) == (namespace@, key@)
                    && self@.objects.contains_key((namespace@, key@)),
                None => !self@.objects.contains_key((namespace@, key@)),
            },
    {
        let ns = namespace.to_owned();
        let mut i: usize = 0;
        while i < self.objects.len()
            invariant
                0 <= i <= self.objects@.len(),
                ns@ == namespace@,
                forall|j: int| 0 <= j < i ==> object_key(#[trigger] self.objects@[j]) != (namespace@, key@),
                self.wf(),
            decreases self.objects@.len() - i,
        {
            if self.objects[i].namespace == ns && bytes_equal(&self.objects[i].key, key) {
                assert(self.object_map@.contains_key(object_key(self.objects@[i as int])));
                return Some(i);
            }
            i += 1;
        }
        None
    }

    /// Stores `value` under `(namespace, key)`, replacing what was there.
    pub fn put_object(&mut self, namespace: String, key: Vec<u8>, value: Vec<u8>)
        requires
            old(self).wf(),
        ensures
            final(self).wf(),
            final(self)@ == old(self)@.put_object_spec(namespace@, key@, value@),
    {
        let ghost k = (namespace@, key@);
        let ghost old_v = self@;
        match self.object_index(namespace.as_str(), &key) {
            Some(i) => {
                self.objects[i].value = value;
                proof {
                    self.object_map@ = self.object_map@.insert(k, self.objects@[i as int].value@);
                    assert forall|a: int| 0 <= a < self.objects@.len() implies object_key(#[trigger] self.objects@[a])
                        == object_key(old(self).objects@[a]) by {}
                    assert forall|kk: (Seq<char>, Seq<u8>)| #[trigger] self.object_map@.contains_key(kk) implies exists|a: int|
                        0 <= a < self.objects@.len() && object_key(#[trigger] self.objects@[a]) == kk by {
                        if kk == k {
                            assert(object_key(self.objects@[i as int]) == k);
                        } else {
                            let a = choose|a: int| 0 <= a < old(self).objects@.len() && object_key(#[trigger] old(self).objects@[a]) == kk;
                            assert(object_key(self.objects@[a]) == kk);
                        }
                    }
                }
                assert forall|a: int| 0 <= a < self.objects@.len() implies #[trigger] self.object_map@.contains_key(object_key(self.objects@[a]))
                    && self.object_map@[object_key(self.objects@[a])] == self.objects@[a].value@ by {
                    if a != i {
                        assert(object_key(self.objects@[a]) != k);
                    }
                }
            },
            None => {
                self.objects.push(ObjectRecord { namespace, key, value });
                proof {
                    let n = self.objects@.len() - 1;
                    assert forall|a: int| 0 <= a < n implies object_key(#[trigger] self.objects@[a]) != k by {
                        assert(self.objects@[a] == old(self).objects@[a]);
                        assert(old(self).object_map@.contains_key(object_key(old(self).objects@[a])));
                    }
                    self.object_map@ = self.object_map@.insert(k, self.objects@[n].value@);
                    assert(object_key(self.objects@[n]) == k);
                    assert forall|a: int| 0 <= a < self.objects@.len() implies #[trigger] self.object_map@.contains_key(object_key(self.objects@[a]))
                        && self.object_map@[object_key(self.objects@[a])] == self.objects@[a].value@ by {
                        if a < n {
                            assert(self.objects@[a] == old(self).objects@[a]);
                            assert(object_key(self.objects@[a]) != k);
                            assert(old(self).object_map@.contains_key(object_key(old(self).objects@[a])));
                            assert(old(self).object_map@[object_key(old(self).objects@[a])] == old(self).objects@[a].value@);
                        }
                    }
                    assert forall|kk: (Seq<char>, Seq<u8>)| #[trigger] self.object_map@.contains_key(kk) implies exists|a: int|
                        0 <= a < self.objects@.len() && object_key(#[trigger] self.objects@[a]) == kk by {
                        if kk != k {
                            let a = choose|a: int| 0 <= a < old(self).objects@.len() && object_key(#[trigger] old(self).objects@[a]) == kk;
                            assert(self.objects@[a] == old(self).objects@[a]);
                        }
                    }
                }
            },
        }
        assert(self@ =~= old_v.put_object_spec(namespace@, key@, value@));
    }

    /// The value stored under `(namespace, key)`.
    pub fn get_object(&self, namespace: &str, key: &Vec<u8>) -> (r: Result<Vec<u8>, PapError>)
        requires
            self.wf(),
        ensures
            r is Ok <==> self@.objects.contains_key((namespace@, key@)),
            match r {
                Ok(v) => v@ == self@.objects[(namespace@, key@)],
                Err(e) => e is NotFound,
            },
    {
        match self.object_index(namespace, key) {
            Some(i) => Ok(clone_bytes(&self.objects[i].value)),
            None => Err(PapError::NotFound(join("Object in namespace ", namespace))),
        }
    }

    /// Marks pipeline `pipeline_id` `Failed` unless it is already terminal,
    /// and appends `message` to the error log.
    pub fn record_error(&mut self, pipeline_id: u32, message: String, timestamp: u64) -> (r: Result<(), PapError>)
        requires
            old(self).wf(),
        ensures
            final(self).wf(),
            r is Ok <==> old(self)@.next_error_id < u32::MAX,
            match r {
                Ok(_) => final(self)@ == old(self)@.record_error_spec(pipeline_id, message@, timestamp),
                Err(e) => e is Database && final(self)@ == old(self)@,
            },
    {
        if self.next_error_id == u32::MAX {
            return Err(PapError::Database(join("error log ", "is full")));
        }
        let ghost old_v = self@;
        self.write_pipeline_status(pipeline_id, ExecutionStatus::Failed, true);
        let ghost mid = self@;
        let ghost mid_store = *self;
        assert(mid_store.objects_wf());
        let id = self.next_error_id;
        self.errors.push(ErrorRecord { id, pipeline_id, timestamp, message });
        self.next_error_id = id + 1;
        assert(self@.errors =~= mid.errors.push(ErrorRow { id, pipeline_id, timestamp, message: message@ }));
        assert(self@ =~= old_v.record_error_spec(pipeline_id, message@, timestamp));
        assert(self@.error_ids() =~= mid.error_ids().push(id));
        assert(ids_fresh(mid.error_ids(), id));
        assert(ids_fresh(self@.error_ids(), self.next_error_id));
        assert(self@.inv());
        assert(self.objects == mid_store.objects && self.object_map == mid_store.object_map);
        assert(self.objects_wf());
        Ok(())
    }

    /// Whether step `step_id`, its job or its pipeline is `Cancelled`.
    pub fn is_step_cancelled(&self, step_id: u32) -> (r: Result<bool, PapError>)
        requires
            self.wf(),
        ensures
            match r {
                Ok(b) => self@.cancellation(step_id) == Some(b),
                Err(e) => self@.cancellation(step_id) is None && e is NotFound,
            },
    {
        let si = match self.step_index(step_id) {
            Some(i) => i,
            None => return Err(PapError::NotFound(join("Step ", "not found"))),
        };
        if self.steps[si].status == ExecutionStatus::Cancelled {
            return Ok(true);
        }
        let ji = match self.job_index(self.steps[si].job_id) {
            Some(i) => i,
            None => return Err(PapError::NotFound(join("Job ", "not found"))),
        };
        if self.jobs[ji].status == ExecutionStatus::Cancelled {
            return Ok(true);
        }
        match self.pipeline_index(self.steps[si].pipeline_id) {
            Some(i) => Ok(self.pipelines[i].status == ExecutionStatus::Cancelled),
            None => Err(PapError::NotFound(join("Pipeline ", "not found"))),
        }
    }

    fn delete_step_rows(&mut self, pid: u32)
        requires
            old(self).wf(),
        ensures
            final(self).wf(),
            final(self)@ == (StoreView { steps: steps_kept(old(self)@.steps, pid), ..old(self)@ }),
    {
        let ghost old_v = self@;
        let ghost rows = old_v.steps;
        let ghost mut k: int = 0;
        let mut i: usize = 0;
        while i < self.steps.len()
            invariant
                0 <= k <= rows.len(),
                i == steps_kept(rows.take(k), pid).len(),
                self@.steps == steps_kept(rows.take(k), pid) + rows.skip(k),
                ids_fresh(self@.step_ids(), self.next_step_id),
                forall|a: int| 0 <= a < self@.steps.len() ==> (#[trigger] self@.steps[a]).job_id < self.next_job_id
                    && self@.steps[a].pipeline_id < self.next_pipeline_id,
                steps_follow_jobs(self@.steps, self@.jobs),
                self.pipelines == old(self).pipelines,
                self.jobs == old(self).jobs,
                self.objects == old(self).objects,
                self.object_map == old(self).object_map,
                self.errors == old(self).errors,
                self.next_pipeline_id == old(self).next_pipeline_id,
                self.next_job_id == old(self).next_job_id,
                self.next_step_id == old(self).next_step_id,
                self.next_error_id == old(self).next_error_id,
                old_v == old(self)@,
                rows == old_v.steps,
            decreases self.steps@.len() - i,
        {
            proof {
                assert(self@.steps[i as int] == rows[k]);
                lemma_filter_take(rows, k, |r: StepRow| r.pipeline_id != pid);
            }
            if self.steps[i].pipeline_id != pid {
                i += 1;
                proof {
                    assert(self@.steps =~= steps_kept(rows.take(k + 1), pid) + rows.skip(k + 1));
                    k = k + 1;
                }
            } else {
                let ghost before = self@.step_ids();
                let ghost before_rows = self@.steps;
                self.steps.remove(i);
                proof {
                    assert(self@.step_ids() =~= before.remove(i as int));
                    assert(self@.steps =~= before_rows.remove(i as int));
                    lemma_follow_remove_step(before_rows, self@.jobs, i as int);
                    assert(before_rows.remove(i as int) =~= before_rows.take(i as int) + before_rows.skip(i + 1));
                    assert(before_rows.take(i as int) =~= steps_kept(rows.take(k), pid).take(i as int));
                    lemma_fresh_remove(before, self.next_step_id, i as int);
                    assert(self@.steps =~= steps_kept(rows.take(k + 1), pid) + rows.skip(k + 1));
                    k = k + 1;
                }
            }
        }
        assert(rows.take(k) =~= rows);
        assert(self@.steps =~= steps_kept(rows, pid));
        assert(self@ =~= (StoreView { steps: steps_kept(old_v.steps, pid), ..old_v }));
    }

    fn delete_job_rows(&mut self, pid: u32)
        requires
            old(self).wf(),
        ensures
            final(self).wf(),
            final(self)@ == (StoreView { jobs: jobs_kept(old(self)@.jobs, pid), ..old(self)@ }),
    {
        let ghost old_v = self@;
        let ghost rows = old_v.jobs;
        let ghost mut k: int = 0;
        let mut i: usize = 0;
        while i < self.jobs.len()
            invariant
                0 <= k <= rows.len(),
                i == jobs_kept(rows.take(k), pid).len(),
                self@.jobs == jobs_kept(rows.take(k), pid) + rows.skip(k),
                ids_fresh(self@.job_ids(), self.next_job_id),
                forall|a: int| 0 <= a < self@.jobs.len() ==> (#[trigger] self@.jobs[a]).pipeline_id < self.next_pipeline_id,
                steps_follow_jobs(self@.steps, self@.jobs),
                self.pipelines == old(self).pipelines,
                self.steps == old(self).steps,
                self.objects == old(self).objects,
                self.object_map == old(self).object_map,
                self.errors == old(self).errors,
                self.next_pipeline_id == old(self).next_pipeline_id,
                self.next_job_id == old(self).next_job_id,
                self.next_step_id == old(self).next_step_id,
                self.next_error_id == old(self).next_error_id,
                old_v == old(self)@,
                rows == old_v.jobs,
            decreases self.jobs@.len() - i,
        {
            proof {
                assert(self@.jobs[i as int] == rows[k]);
                lemma_filter_take(rows, k, |r: JobRow| r.pipeline_id != pid);
            }
            if self.jobs[i].pipeline_id != pid {
                i += 1;
                proof {
                    assert(self@.jobs =~= jobs_kept(rows.take(k + 1), pid) + rows.skip(k + 1));
                    k = k + 1;
                }
            } else {
                let ghost before = self@.job_ids();
                let ghost before_rows = self@.jobs;
                self.jobs.remove(i);
                proof {
                    assert(self@.job_ids() =~= before.remove(i as int));
                    assert(self@.jobs =~= before_rows.remove(i as int));
                    lemma_follow_remove_job(self@.steps, before_rows, i as int);
                    assert(before_rows.remove(i as int) =~= before_rows.take(i as int) + before_rows.skip(i + 1));
                    assert(before_rows.take(i as int) =~= jobs_kept(rows.take(k), pid).take(i as int));
                    lemma_fresh_remove(before, self.next_job_id, i as int);
                    assert(self@.jobs =~= jobs_kept(rows.take(k + 1), pid) + rows.skip(k + 1));
                    k = k + 1;
                }
            }
        }
        assert(rows.take(k) =~= rows);
        assert(self@.jobs =~= jobs_kept(rows, pid));
        assert(self@ =~= (StoreView { jobs: jobs_kept(old_v.jobs, pid), ..old_v }));
    }

    fn delete_pipeline_rows(&mut self, pid: u32)
        requires
            old(self).wf(),
        ensures
            final(self).wf(),
            final(self)@ == (StoreView { pipelines: pipelines_kept(old(self)@.pipelines, pid), ..old(self)@ }),
    {
        let ghost old_v = self@;
        let ghost rows = old_v.pipelines;
        let ghost mut k: int = 0;
        let mut i: usize = 0;
        while i < self.pipelines.len()
            invariant
                0 <= k <= rows.len(),
                i == pipelines_kept(rows.take(k), pid).len(),
                self@.pipelines == pipelines_kept(rows.take(k), pid) + rows.skip(k),
                ids_fresh(self@.pipeline_ids(), self.next_pipeline_id),
                self.jobs == old(self).jobs,
                self.steps == old(self).steps,
                self.objects == old(self).objects,
                self.object_map == old(self).object_map,
                self.errors == old(self).errors,
                self.next_pipeline_id == old(self).next_pipeline_id,
                self.next_job_id == old(self).next_job_id,
                self.next_step_id == old(self).next_step_id,
                self.next_error_id == old(self).next_error_id,
                old_v == old(self)@,
                rows == old_v.pipelines,
            decreases self.pipelines@.len() - i,
        {
            proof {
                assert(self@.pipelines[i as int] == rows[k]);
                lemma_filter_take(rows, k, |r: PipelineRow| r.id != pid);
            }
            if self.pipelines[i].id != pid {
                i += 1;
                proof {
                    assert(self@.pipelines =~= pipelines_kept(rows.take(k + 1), pid) + rows.skip(k + 1));
                    k = k + 1;
                }
            } else {
                let ghost before = self@.pipeline_ids();
                let ghost before_rows = self@.pipelines;
                self.pipelines.remove(i);
                proof {
                    assert(self@.pipeline_ids() =~= before.remove(i as int));
                    assert(self@.pipelines =~= before_rows.remove(i as int));
                    assert(before_rows.remove(i as int) =~= before_rows.take(i as int) + before_rows.skip(i + 1));
                    assert(before_rows.take(i as int) =~= pipelines_kept(rows.take(k), pid).take(i as int));
                    lemma_fresh_remove(before, self.next_pipeline_id, i as int);
                    assert(self@.pipelines =~= pipelines_kept(rows.take(k + 1), pid) + rows.skip(k + 1));
                    k = k + 1;
                }
            }
        }
        assert(rows.take(k) =~= rows);
        assert(self@.pipelines =~= pipelines_kept(rows, pid));
        assert(self@ =~= (StoreView { pipelines: pipelines_kept(old_v.pipelines, pid), ..old_v }));
    }

    /// Deletes the steps, then the jobs, then the row of pipeline `id`.
    pub fn delete_pipeline(&mut self, id: u32)
        requires
            old(self).wf(),
        ensures
            final(self).wf(),
            final(self)@ == old(self)@.delete_pipeline_spec(id),
    {
        let ghost old_v = self@;
        self.delete_step_rows(id);
        self.delete_job_rows(id);
        self.delete_pipeline_rows(id);
        assert(self@ =~= old_v.delete_pipeline_spec(id));
    }

    /// Inserts a submission in one transaction: the pipeline row, then a row
    /// for each job and for each of its steps, in declared order. The row is
    /// stored `Pending`; the status handed back says `Running`, that is,
    /// accepted for execution.
    pub fn insert_pipeline(&mut self, context: Context) -> (r: Result<PipelineStatus, PapError>)
        requires
            old(self).wf(),
        ensures
            final(self).wf(),
            r is Ok <==> old(self)@.has_room(context@),
            match r {
                Ok(p) => final(self)@ == old(self)@.insert_pipeline_spec(context@) && p@ == (PipelineStatusView {
                    id: old(self)@.next_pipeline_id,
                    config: context@.config,
                    status: ExecutionStatus::Running,
                    jobs: Seq::new(context@.config.jobs.len(), |j: int| (old(self)@.next_job_id + j) as u32),
                    error: None,
                }),
                Err(e) => e is Database && final(self)@ == old(self)@,
            },
    {
        let njobs = context.config.jobs.len();
        if self.next_pipeline_id == u32::MAX || njobs as u64 > (u32::MAX - self.next_job_id) as u64
            || !steps_fit(&context.config, (u32::MAX - self.next_step_id) as u64) {
            return Err(PapError::Database(join("id space ", "exhausted")));
        }
        let ghost old_v = self@;
        let ghost old_store = *self;
        let ghost ctx_v = context@;
        let ghost jobs_v = context@.config.jobs;
        let config = context.config.deep_clone();
        let pid = self.next_pipeline_id;
        let first_job = self.next_job_id;
        let first_step = self.next_step_id;
        let ghost before_ids = self@.pipeline_ids();
        self.pipelines.push(PipelineRecord { id: pid, context, status: ExecutionStatus::Pending });
        self.next_pipeline_id = pid + 1;
        proof {
            assert(self@.pipeline_ids() =~= before_ids.push(pid));
            lemma_fresh_push(before_ids, pid);
            assert(jobs_v.take(0) =~= Seq::<JobView>::empty());
            assert(self@.jobs =~= old_v.jobs + new_job_rows(pid, first_job, jobs_v.take(0)));
            assert(self@.steps =~= old_v.steps + new_step_rows(pid, first_job, first_step, jobs_v.take(0)));
        }
        proof {
            assert forall|b: int| 0 <= b < self@.jobs.len() implies (#[trigger] self@.jobs[b]).id < first_job by {
                assert(old_v.job_ids()[b] == old_v.jobs[b].id);
            }
        }
        let mut job_ids: Vec<u32> = Vec::new();
        let mut j: usize = 0;
        while j < config.jobs.len()
            invariant
                0 <= j <= jobs_v.len(),
                config@.jobs == jobs_v,
                ids_fresh(self@.pipeline_ids(), self.next_pipeline_id),
                ids_fresh(self@.job_ids(), self.next_job_id),
                ids_fresh(self@.step_ids(), self.next_step_id),
                self@.pipelines == old_v.pipelines.push(PipelineRow { id: pid, context: ctx_v, status: ExecutionStatus::Pending }),
                self@.jobs == old_v.jobs + new_job_rows(pid, first_job, jobs_v.take(j as int)),
                self@.steps == old_v.steps + new_step_rows(pid, first_job, first_step, jobs_v.take(j as int)),
                self.next_pipeline_id == pid + 1,
                self.next_job_id == first_job + j,
                steps_follow_jobs(self@.steps, self@.jobs),
                forall|b: int| 0 <= b < self@.jobs.len() && (#[trigger] self@.jobs[b]).id >= first_job ==> self@.jobs[b].pipeline_id == pid,
                forall|a: int| 0 <= a < self@.jobs.len() ==> (#[trigger] self@.jobs[a]).pipeline_id < self.next_pipeline_id,
                forall|a: int| 0 <= a < self@.steps.len() ==> (#[trigger] self@.steps[a]).job_id < self.next_job_id
                    && self@.steps[a].pipeline_id < self.next_pipeline_id,
                self.next_step_id == first_step + step_count(jobs_v.take(j as int)),
                first_job + jobs_v.len() <= u32::MAX,
                first_step + step_count(jobs_v) <= u32::MAX,
                job_ids@ == Seq::new(j as nat, |x: int| (first_job + x) as u32),
                pid == old_v.next_pipeline_id,
                first_job == old_v.next_job_id,
                first_step == old_v.next_step_id,
                self.objects == old_store.objects,
                self.object_map == old_store.object_map,
                self.errors == old_store.errors,
                self.next_error_id == old_store.next_error_id,
            decreases jobs_v.len() - j,
        {
            proof {
                lemma_step_count_take(jobs_v, j as int);
                lemma_new_step_rows_take(pid, first_job, first_step, jobs_v, j as int);
            }
            let jid = self.next_job_id;
            let ghost before_jids = self@.job_ids();
            let ghost before_jobs = self@.jobs;
            self.jobs.push(JobRecord {
                id: jid,
                pipeline_id: pid,
                config: config.jobs[j].deep_clone(),
                status: ExecutionStatus::Pending,
                current_step: 0,
            });
            self.next_job_id = jid + 1;
            job_ids.push(jid);
            proof {
                assert(self@.job_ids() =~= before_jids.push(jid));
                lemma_fresh_push(before_jids, jid);
                lemma_follow_push_job(self@.steps, before_jobs,
                    JobRow { id: jid, pipeline_id: pid, config: jobs_v[j as int], status: ExecutionStatus::Pending, current_step: 0 });
                assert(new_job_rows(pid, first_job, jobs_v.take(j + 1)) =~= new_job_rows(pid, first_job, jobs_v.take(j as int)).push(
                    JobRow { id: jid, pipeline_id: pid, config: jobs_v[j as int], status: ExecutionStatus::Pending, current_step: 0 }));
                assert(self@.jobs =~= before_jobs.push(JobRow { id: jid, pipeline_id: pid, config: jobs_v[j as int], status: ExecutionStatus::Pending, current_step: 0 }));
                assert(job_ids@ =~= Seq::new((j + 1) as nat, |x: int| (first_job + x) as u32));
                assert(self@.jobs =~= old_v.jobs + new_job_rows(pid, first_job, jobs_v.take(j + 1)));
            }
            let ghost steps_v = jobs_v[j as int].steps;
            let ghost base = first_step + step_count(jobs_v.take(j as int));
            let ghost prefix = old_v.steps + new_step_rows(pid, first_job, first_step, jobs_v.take(j as int));
            proof {
                assert(steps_v.take(0) =~= Seq::<StepView>::empty());
                assert(self@.steps =~= prefix + job_step_rows(pid, jid, base, steps_v.take(0)));
            }
            let mut i: usize = 0;
            while i < config.jobs[j].steps.len()
                invariant
                    0 <= i <= steps_v.len(),
                    0 <= j < jobs_v.len(),
                    config@.jobs == jobs_v,
                    steps_v == jobs_v[j as int].steps,
                    config.jobs@[j as int].steps@.len() == steps_v.len(),
                    ids_fresh(self@.step_ids(), self.next_step_id),
                    ids_fresh(self@.pipeline_ids(), self.next_pipeline_id),
                    ids_fresh(self@.job_ids(), self.next_job_id),
                    self@.pipelines == old_v.pipelines.push(PipelineRow { id: pid, context: ctx_v, status: ExecutionStatus::Pending }),
                    self@.jobs == old_v.jobs + new_job_rows(pid, first_job, jobs_v.take(j + 1)),
                    self.next_pipeline_id == pid + 1,
                    self.next_job_id == first_job + j + 1,
                    steps_follow_jobs(self@.steps, self@.jobs),
                    forall|b: int| 0 <= b < self@.jobs.len() && (#[trigger] self@.jobs[b]).id >= first_job ==> self@.jobs[b].pipeline_id == pid,
                    jid >= first_job,
                    jid < self.next_job_id,
                    forall|a: int| 0 <= a < self@.jobs.len() ==> (#[trigger] self@.jobs[a]).pipeline_id < self.next_pipeline_id,
                    forall|a: int| 0 <= a < self@.steps.len() ==> (#[trigger] self@.steps[a]).job_id < self.next_job_id
                        && self@.steps[a].pipeline_id < self.next_pipeline_id,
                    self.objects == old_store.objects,
                    self.object_map == old_store.object_map,
                    self.errors == old_store.errors,
                    self.next_error_id == old_store.next_error_id,
                    self@.steps == prefix + job_step_rows(pid, jid, base, steps_v.take(i as int)),
                    self.next_step_id == base + i,
                    base + steps_v.len() <= u32::MAX,
                decreases steps_v.len() - i,
            {
                let sid = self.next_step_id;
                let ghost before_sids = self@.step_ids();
                let ghost before_steps = self@.steps;
                let cfg = config.jobs[j].steps[i].deep_clone();
                assert(cfg@ == steps_v[i as int]);
                self.steps.push(StepRecord {
                    id: sid,
                    job_id: jid,
                    pipeline_id: pid,
                    config: cfg,
                    status: ExecutionStatus::Pending,
                    log: None,
                });
                self.next_step_id = sid + 1;
                proof {
                    assert(self@.step_ids() =~= before_sids.push(sid));
                    lemma_fresh_push(before_sids, sid);
                    let row = StepRow { id: sid, job_id: jid, pipeline_id: pid, config: steps_v[i as int], status: ExecutionStatus::Pending, log: None };
                    assert(self@.steps =~= before_steps.push(row));
                    lemma_follow_push_step(before_steps, self@.jobs, row);
                    assert(job_step_rows(pid, jid, base, steps_v.take(i + 1)) =~= job_step_rows(pid, jid, base, steps_v.take(i as int)).push(row));
                }
                i += 1;
            }
            proof {
                assert(steps_v.take(steps_v.len() as int) =~= steps_v);
                assert(self@.steps =~= old_v.steps + new_step_rows(pid, first_job, first_step, jobs_v.take(j + 1)));
            }
            j += 1;
        }
        proof {
            assert(jobs_v.take(jobs_v.len() as int) =~= jobs_v);
            assert(self@ =~= old_v.insert_pipeline_spec(ctx_v));
            assert(self.objects_wf());
        }
        Ok(PipelineStatus { id: pid, config, status: ExecutionStatus::Running, jobs: job_ids, error: None })
    }

    /// The status of pipeline `id`.
    pub fn pipeline_status(&self, id: u32) -> (r: Result<ExecutionStatus, PapError>)
        requires
            self.wf(),
        ensures
            r is Ok <==> self@.has_pipeline(id),
            match r {
                Ok(s) => s == self@.pipeline(id).status,
                Err(e) => e is NotFound,
            },
    {
        match self.pipeline_index(id) {
            Some(i) => Ok(self.pipelines[i].status),
            None => Err(PapError::NotFound(join("Pipeline ", "not found"))),
        }
    }

    /// The status of job `id`.
    pub fn job_status(&self, id: u32) -> (r: Result<ExecutionStatus, PapError>)
        requires
            self.wf(),
        ensures
            r is Ok <==> self@.has_job(id),
            match r {
                Ok(s) => s == self@.job(id).status,
                Err(e) => e is NotFound,
            },
    {
        match self.job_index(id) {
            Some(i) => Ok(self.jobs[i].status),
            None => Err(PapError::NotFound(join("Job ", "not found"))),
        }
    }

    /// The submission that pipeline `id` was created from.
    pub fn get_context(&self, id: u32) -> (r: Result<Context, PapError>)
        requires
            self.wf(),
        ensures
            r is Ok <==> self@.has_pipeline(id),
            match r {
                Ok(c) => c@ == self@.pipeline(id).context,
                Err(e) => e is NotFound,
            },
    {
        match self.pipeline_index(id) {
            Some(i) => Ok(self.pipelines[i].context.deep_clone()),
            None => Err(PapError::NotFound(join("Pipeline ", "not found"))),
        }
    }

    /// The messages of the errors recorded for pipeline `pid`, oldest first.
    pub fn error_messages(&self, pid: u32) -> (r: Vec<String>)
        requires
            self.wf(),
        ensures
            r@.map_values(|m: String| m@) == self@.errors.filter(|e: ErrorRow| e.pipeline_id == pid).map_values(
                |e: ErrorRow| e.message,
            ),
    {
        let ghost rows = self@.errors;
        let mut r: Vec<String> = Vec::new();
        let mut i: usize = 0;
        while i < self.errors.len()
            invariant
                0 <= i <= self.errors@.len(),
                rows == self@.errors,
                r@.map_values(|m: String| m@) == rows.take(i as int).filter(|e: ErrorRow| e.pipeline_id == pid).map_values(
                    |e: ErrorRow| e.message,
                ),
            decreases self.errors@.len() - i,
        {
            proof {
                lemma_filter_take(rows, i as int, |e: ErrorRow| e.pipeline_id == pid);
            }
            let ghost before = r@;
            if self.errors[i].pipeline_id == pid {
                r.push(self.errors[i].message.clone());
                proof {
                    let f = rows.take(i as int).filter(|e: ErrorRow| e.pipeline_id == pid);
                    assert(f.push(rows[i as int]).map_values(|e: ErrorRow| e.message) =~= f.map_values(|e: ErrorRow| e.message).push(rows[i as int].message));
                    assert(r@.map_values(|m: String| m@) =~= before.map_values(|m: String| m@).push(rows[i as int].message));
                }
            }
            i += 1;
        }
        assert(rows.take(rows.len() as int) =~= rows);
        r
    }
}

/// Whether two byte strings are equal.
pub fn bytes_equal(a: &Vec<u8>, b: &Vec<u8>) -> (r: bool)
    ensures
        r == (a@ == b@),
{
    if a.len() != b.len() {
        return false;
    }
    let mut i: usize = 0;
    while i < a.len()
        invariant
            0 <= i <= a@.len(),
            a@.len() == b@.len(),
            forall|j: int| 0 <= j < i ==> a@[j] == b@[j],
        decreases a@.len() - i,
    {
        if a[i] != b[i] {
            return false;
        }
        i += 1;
    }
    assert(a@ =~= b@);
    true
}

} // verus!
