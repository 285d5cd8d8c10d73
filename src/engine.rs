use vstd::prelude::*;
use vstd::string::*;

use crate::runtime::StepContext;
use crate::status::{ExecutionStatus, PipelineStatus, StepStatus, StepStatusView};
use crate::store::{lemma_unique_index, next_status, step_status_of, JobRow, PipelineRow, Selector, StepRow, Store, StoreView};

verus! {

/// A status that is terminal stays as it is.
pub open spec fn status_kept(a: ExecutionStatus, b: ExecutionStatus) -> bool {
    a.is_terminal() ==> b == a
}

/// What the engine may do to the store: change statuses that are not
/// terminal, write step logs and append errors. It inserts and deletes
/// nothing and leaves objects and configs alone.
pub open spec fn engine_step(a: StoreView, b: StoreView) -> bool {
    &&& b.pipelines.len() == a.pipelines.len()
    &&& forall|i: int| 0 <= i < a.pipelines.len() ==> {
        &&& (#[trigger] b.pipelines[i]) == PipelineRow { status: b.pipelines[i].status, ..a.pipelines[i] }
        &&& status_kept(a.pipelines[i].status, b.pipelines[i].status)
    }
    &&& b.jobs.len() == a.jobs.len()
    &&& forall|i: int| 0 <= i < a.jobs.len() ==> {
        &&& (#[trigger] b.jobs[i]) == JobRow { status: b.jobs[i].status, ..a.jobs[i] }
        &&& status_kept(a.jobs[i].status, b.jobs[i].status)
    }
    &&& b.steps.len() == a.steps.len()
    &&& forall|i: int| 0 <= i < a.steps.len() ==> {
        &&& (#[trigger] b.steps[i]) == StepRow { status: b.steps[i].status, log: b.steps[i].log, ..a.steps[i] }
        &&& status_kept(a.steps[i].status, b.steps[i].status)
    }
    &&& b.objects == a.objects
    &&& a.errors.len() <= b.errors.len()
    &&& forall|i: int| 0 <= i < a.errors.len() ==> #[trigger] b.errors[i] == a.errors[i]
    &&& b.next_pipeline_id == a.next_pipeline_id
    &&& b.next_job_id == a.next_job_id
    &&& b.next_step_id == a.next_step_id
}

/// Engine steps compose.
pub proof fn lemma_engine_step_trans(a: StoreView, b: StoreView, c: StoreView)
    requires
        engine_step(a, b),
        engine_step(b, c),
    ensures
        engine_step(a, c),
{
    assert forall|i: int| 0 <= i < a.pipelines.len() implies (#[trigger] c.pipelines[i]) == PipelineRow {
        status: c.pipelines[i].status,
        ..a.pipelines[i]
    } && status_kept(a.pipelines[i].status, c.pipelines[i].status) by {
        assert(b.pipelines[i] == PipelineRow { status: b.pipelines[i].status, ..a.pipelines[i] });
    }
    assert forall|i: int| 0 <= i < a.jobs.len() implies (#[trigger] c.jobs[i]) == JobRow {
        status: c.jobs[i].status,
        ..a.jobs[i]
    } && status_kept(a.jobs[i].status, c.jobs[i].status) by {
        assert(b.jobs[i] == JobRow { status: b.jobs[i].status, ..a.jobs[i] });
    }
    assert forall|i: int| 0 <= i < a.steps.len() implies (#[trigger] c.steps[i]) == StepRow {
        status: c.steps[i].status,
        log: c.steps[i].log,
        ..a.steps[i]
    } && status_kept(a.steps[i].status, c.steps[i].status) by {
        assert(b.steps[i] == StepRow { status: b.steps[i].status, log: b.steps[i].log, ..a.steps[i] });
    }
    assert forall|i: int| 0 <= i < a.errors.len() implies #[trigger] c.errors[i] == a.errors[i] by {
        assert(b.errors[i] == a.errors[i]);
    }
}

proof fn lemma_guarded_writes(v: StoreView, pid: u32, jid: u32, sid: u32, s: ExecutionStatus)
    ensures
        engine_step(v, v.with_pipeline_status(pid, s, true)),
        engine_step(v, v.with_job_status(Selector::ById, jid, s, true)),
        engine_step(v, v.with_step_status(Selector::ById, sid, s, true)),
{
}

proof fn lemma_log_write(v: StoreView, sid: u32, log: Seq<u8>)
    ensures
        engine_step(v, v.with_step_log(sid, log)),
{
}

proof fn lemma_error_write(v: StoreView, pid: u32, message: Seq<char>, timestamp: u64)
    ensures
        engine_step(v, v.record_error_spec(pid, message, timestamp)),
{
    let w = v.with_pipeline_status(pid, ExecutionStatus::Failed, true);
    assert(engine_step(v, w));
    let x = v.record_error_spec(pid, message, timestamp);
    assert(engine_step(w, x));
    lemma_engine_step_trans(v, w, x);
}

/// After a guarded write of a terminal status the pipeline, if present, is
/// terminal.
proof fn lemma_pipeline_terminal_after(v: StoreView, pid: u32, s: ExecutionStatus)
    requires
        v.inv(),
        s.is_terminal(),
    ensures
        !v.with_pipeline_status(pid, s, true).has_pipeline(pid)
            || v.with_pipeline_status(pid, s, true).pipeline(pid).status.is_terminal(),
{
    let w = v.with_pipeline_status(pid, s, true);
    if w.has_pipeline(pid) {
        let k = choose|k: int| 0 <= k < w.pipelines.len() && (#[trigger] w.pipelines[k]).id == pid;
        assert(w.pipelines[k].status == next_status(v.pipelines[k].status, s, true));
    }
}

/// A terminal pipeline keeps its status across an engine step.
pub proof fn lemma_engine_step_keeps_terminal(a: StoreView, b: StoreView, pid: u32)
    requires
        a.inv(),
        b.inv(),
        engine_step(a, b),
        a.has_pipeline(pid),
        a.pipeline(pid).status.is_terminal(),
    ensures
        b.has_pipeline(pid),
        b.pipeline(pid).status == a.pipeline(pid).status,
{
    let j = choose|j: int| 0 <= j < a.pipelines.len() && (#[trigger] a.pipelines[j]).id == pid;
    assert(b.pipelines[j] == PipelineRow { status: b.pipelines[j].status, ..a.pipelines[j] });
    assert(b.pipelines[j].id == pid);
    let k = choose|k: int| 0 <= k < b.pipelines.len() && (#[trigger] b.pipelines[k]).id == pid;
    assert(b.pipeline_ids()[k] == b.pipeline_ids()[j]);
    lemma_unique_index(b.pipeline_ids(), b.next_pipeline_id, k, j);
}

/// Whether pipeline `pid` is gone or has reached a terminal status.
pub open spec fn finished_in(v: StoreView, pid: u32) -> bool {
    !v.has_pipeline(pid) || v.pipeline(pid).status.is_terminal()
}

proof fn lemma_finished_persists(a: StoreView, b: StoreView, pid: u32)
    requires
        a.inv(),
        b.inv(),
        engine_step(a, b),
        finished_in(a, pid),
    ensures
        finished_in(b, pid),
{
    if a.has_pipeline(pid) {
        lemma_engine_step_keeps_terminal(a, b, pid);
    } else if b.has_pipeline(pid) {
        let k = choose|k: int| 0 <= k < b.pipelines.len() && (#[trigger] b.pipelines[k]).id == pid;
        assert(b.pipelines[k] == PipelineRow { status: b.pipelines[k].status, ..a.pipelines[k] });
        assert(a.pipelines[k].id == pid);
    }
}

/// The store after step `sid` of job `jid` of pipeline `pid` failed with
/// log `log`: the log is kept, and the step, the job and the pipeline become
/// `Failed` where they are not terminal.
pub open spec fn failed_spec(v: StoreView, pid: u32, jid: u32, sid: u32, log: Seq<u8>) -> StoreView {
    v.with_step_log(sid, log)
        .with_step_status(Selector::ById, sid, ExecutionStatus::Failed, true)
        .with_job_status(Selector::ById, jid, ExecutionStatus::Failed, true)
        .with_pipeline_status(pid, ExecutionStatus::Failed, true)
}

/// The store after step `sid` succeeded with log `log`.
pub open spec fn succeeded_spec(v: StoreView, sid: u32, log: Seq<u8>) -> StoreView {
    v.with_step_log(sid, log).with_step_status(Selector::ById, sid, ExecutionStatus::Completed, true)
}

/// Where a run stands.
#[derive(Clone, Copy, Debug, PartialEq, Eq, Structural)]
pub enum Phase {
    /// Nothing written yet.
    Start,
    /// About to begin job `job_index`.
    NextJob,
    /// About to begin step `step_index` of the current job.
    NextStep,
    /// Step `step_index` of the current job has been handed out.
    Running,
    /// The run is over.
    Done,
}

pub open spec fn phase_rank(p: Phase) -> nat {
    match p {
        Phase::Start => 2,
        Phase::NextJob => 1,
        _ => 0,
    }
}

/// The store after the run of pipeline `pid` stops on a missing row: the
/// pipeline becomes `Failed` unless it is terminal, and the error is logged
/// where an error id is left.
pub open spec fn fail_spec(v: StoreView, pid: u32, message: Seq<char>, now: u64) -> StoreView {
    let w = v.with_pipeline_status(pid, ExecutionStatus::Failed, true);
    if w.next_error_id < u32::MAX {
        w.record_error_spec(pid, message, now)
    } else {
        w
    }
}

/// A run as a mathematical value: where it stands in the jobs, the steps of
/// the current job as read when the job began, and where it stands in them.
pub ghost struct RunModel {
    pub job_index: int,
    pub steps: Seq<StepStatusView>,
    pub step_index: int,
    pub phase: Phase,
}

/// What `advance` does, for the run of pipeline `pid` with jobs `jobs`, from
/// run state `m` and store `v`: the run state after, the store after, and
/// whether a step is handed out (the one at `step_index`).
///
/// From `Start` the pipeline is written `Running`. At each job the pipeline
/// is re-read: if it is `Cancelled` the run stops; past the last job it is
/// written `Completed`; otherwise the job's steps are read in declared order
/// and the job is written `Running`. Before each step the job is re-read: a
/// `Cancelled` job, or one whose steps are all done, ends (written
/// `Completed` unless `Cancelled`) and the run goes on with the next job;
/// otherwise the step is written `Running` and handed out. A row that has
/// gone missing stops the run as `fail_spec` says. Writes are guarded: a
/// terminal status stays. A run that is over does nothing.
pub open spec fn advance_spec(pid: u32, jobs: Seq<u32>, m: RunModel, v: StoreView, now: u64) -> (RunModel, StoreView, bool)
    decreases jobs.len() - m.job_index, phase_rank(m.phase),
{
    let done = RunModel { phase: Phase::Done, ..m };
    match m.phase {
        Phase::Start => advance_spec(
            pid,
            jobs,
            RunModel { phase: Phase::NextJob, ..m },
            v.with_pipeline_status(pid, ExecutionStatus::Running, true),
            now,
        ),
        Phase::NextJob => {
            if !v.has_pipeline(pid) {
                (done, fail_spec(v, pid, "pipeline vanished"@, now), false)
            } else if v.pipeline(pid).status is Cancelled {
                (done, v, false)
            } else if m.job_index < 0 || m.job_index >= jobs.len() {
                (done, v.with_pipeline_status(pid, ExecutionStatus::Completed, true), false)
            } else if !v.has_job(jobs[m.job_index]) {
                (done, fail_spec(v, pid, "job vanished"@, now), false)
            } else {
                let jid = jobs[m.job_index];
                advance_spec(
                    pid,
                    jobs,
                    RunModel {
                        phase: Phase::NextStep,
                        steps: v.steps_of(jid).map_values(|x: StepRow| step_status_of(x)),
                        step_index: 0,
                        ..m
                    },
                    v.with_job_status(Selector::ById, jid, ExecutionStatus::Running, true),
                    now,
                )
            }
        },
        Phase::NextStep => {
            if m.job_index < 0 || m.job_index >= jobs.len() {
                (done, v, false)
            } else {
                let jid = jobs[m.job_index];
                if !v.has_job(jid) {
                    (done, fail_spec(v, pid, "job vanished"@, now), false)
                } else if v.job(jid).status is Cancelled || m.step_index < 0 || m.step_index >= m.steps.len() {
                    let w = if v.job(jid).status is Cancelled {
                        v
                    } else {
                        v.with_job_status(Selector::ById, jid, ExecutionStatus::Completed, true)
                    };
                    advance_spec(pid, jobs, RunModel { phase: Phase::NextJob, job_index: m.job_index + 1, ..m }, w, now)
                } else if !v.has_pipeline(pid) {
                    (done, fail_spec(v, pid, "pipeline vanished"@, now), false)
                } else {
                    (
                        RunModel { phase: Phase::Running, ..m },
                        v.with_step_status(Selector::ById, m.steps[m.step_index].id, ExecutionStatus::Running, true),
                        true,
                    )
                }
            }
        },
        _ => (done, v, false),
    }
}

/// How a step that the engine handed out ended.
#[derive(Clone, Debug)]
pub enum StepOutcome {
    Succeeded,
    Failed(String),
}

impl StepOutcome {
    /// How a step ends whose `call` names no registered executor.
    pub fn missing_executor(call: &str) -> (r: StepOutcome)
        ensures
            r matches StepOutcome::Failed(m) && m@ == "step executor not found: "@ + call@,
    {
        StepOutcome::Failed(crate::text::join("step executor not found: ", call))
    }
}

/// What the caller does next: run a step with the given runtime, or stop.
pub enum EngineAction {
    Run(StepContext),
    Finished,
}

/// The state of one pipeline's execution. Jobs run in declared order, and
/// within a job the steps run in declared order, one at a time.
pub struct PipelineRun {
    pub pipeline: PipelineStatus,
    pub job_index: usize,
    pub steps: Vec<StepStatus>,
    pub step_index: usize,
    pub phase: Phase,
}

impl PipelineRun {
    /// The job that the run is at.
    pub open spec fn current_job(&self) -> u32 {
        self.pipeline.jobs@[self.job_index as int]
    }

    /// The step that the run is at.
    pub open spec fn current_step(&self) -> StepStatus {
        self.steps@[self.step_index as int]
    }

    pub open spec fn wf(&self) -> bool {
        &&& self.job_index <= self.pipeline.jobs@.len()
        &&& self.step_index <= self.steps@.len()
        &&& (self.phase is NextStep || self.phase is Running) ==> self.job_index < self.pipeline.jobs@.len()
        &&& self.phase is Running ==> self.step_index < self.steps@.len()
        &&& self.phase is Start ==> self.job_index == 0
    }

    /// A run of `pipeline`, as accepted by the store.
    pub fn new(pipeline: PipelineStatus) -> (r: PipelineRun)
        ensures
            r.wf(),
            r.pipeline == pipeline,
            r.phase is Start,
    {
        PipelineRun { pipeline, job_index: 0, steps: Vec::new(), step_index: 0, phase: Phase::Start }
    }

    /// The run as a mathematical value.
    pub open spec fn model(&self) -> RunModel {
        RunModel {
            job_index: self.job_index as int,
            steps: self.steps@.map_values(|x: StepStatus| x@),
            step_index: self.step_index as int,
            phase: self.phase,
        }
    }

    fn fail(&mut self, store: &mut Store, message: String, now: u64)
        requires
            old(store).wf(),
        ensures
            final(store).wf(),
            engine_step(old(store)@, final(store)@),
            final(store)@ == fail_spec(old(store)@, old(self).pipeline.id, message@, now),
            finished_in(final(store)@, old(self).pipeline.id),
            final(self).phase is Done,
            final(self).pipeline == old(self).pipeline,
            final(self).job_index == old(self).job_index,
            final(self).steps == old(self).steps,
            final(self).step_index == old(self).step_index,
    {
        let pid = self.pipeline.id;
        let ghost v0 = store@;
        proof {
            store.lemma_wf_inv();
        }
        store.advance_pipeline_status(pid, ExecutionStatus::Failed);
        proof {
            store.lemma_wf_inv();
            lemma_guarded_writes(v0, pid, 0, 0, ExecutionStatus::Failed);
            lemma_pipeline_terminal_after(v0, pid, ExecutionStatus::Failed);
        }
        let ghost v1 = store@;
        let _ = store.record_error(pid, message, now);
        proof {
            store.lemma_wf_inv();
            if store@ != v1 {
                lemma_error_write(v1, pid, message@, now);
            }
            lemma_finished_persists(v1, store@, pid);
            lemma_engine_step_trans(v0, v1, store@);
        }
        self.phase = Phase::Done;
    }

    /// Performs the store writes up to the next step to run, or to the end
    /// of the run, exactly as `advance_spec` describes, and says which.
    pub fn advance(&mut self, store: &mut Store, now: u64) -> (r: EngineAction)
        requires
            old(store).wf(),
            old(self).wf(),
            !(old(self).phase is Running),
        ensures
            final(store).wf(),
            final(self).wf(),
            engine_step(old(store)@, final(store)@),
            final(self).pipeline == old(self).pipeline,
            ({
                let res = advance_spec(old(self).pipeline.id, old(self).pipeline.jobs@, old(self).model(), old(store)@, now);
                &&& final(self).model() == res.0
                &&& final(store)@ == res.1
                &&& (r is Run <==> res.2)
            }),
            match r {
                EngineAction::Run(ctx) => {
                    &&& final(self).phase is Running
                    &&& ctx.status@ == final(self).current_step()@
                    &&& ctx.pipeline_status@ == old(self).pipeline@
                    &&& ctx.log_view() == Seq::<u8>::empty()
                    &&& final(store)@.has_pipeline(old(self).pipeline.id)
                    &&& ctx.files@.map_values(|e: (String, Vec<u8>)| (e.0, e.1@))
                        == final(store)@.pipeline(old(self).pipeline.id).context.files
                },
                EngineAction::Finished => {
                    &&& final(self).phase is Done
                    &&& (old(self).phase is Done || finished_in(final(store)@, old(self).pipeline.id))
                },
            },
    {
        let pid = self.pipeline.id;
        let ghost v0 = store@;
        let ghost jobs = self.pipeline.jobs@;
        let ghost target = advance_spec(pid, jobs, self.model(), store@, now);
        loop
            invariant
                store.wf(),
                self.wf(),
                engine_step(v0, store@),
                v0 == old(store)@,
                self.pipeline == old(self).pipeline,
                pid == self.pipeline.id,
                jobs == self.pipeline.jobs@,
                !(self.phase is Running),
                old(self).phase is Done <==> self.phase is Done,
                advance_spec(pid, jobs, self.model(), store@, now) == target,
                target == advance_spec(pid, jobs, old(self).model(), old(store)@, now),
            decreases self.pipeline.jobs@.len() - self.job_index, phase_rank(self.phase),
        {
            let ghost before = store@;
            let ghost m = self.model();
            proof {
                store.lemma_wf_inv();
            }
            match self.phase {
                Phase::Start => {
                    store.advance_pipeline_status(pid, ExecutionStatus::Running);
                    proof {
                        lemma_guarded_writes(before, pid, 0, 0, ExecutionStatus::Running);
                        lemma_engine_step_trans(v0, before, store@);
                    }
                    self.phase = Phase::NextJob;
                    assert(self.model() == RunModel { phase: Phase::NextJob, ..m });
                },
                Phase::NextJob => {
                    let status = match store.pipeline_status(pid) {
                        Ok(s) => s,
                        Err(_) => {
                            self.fail(store, String::from_str("pipeline vanished"), now);
                            proof { lemma_engine_step_trans(v0, before, store@); }
                            assert(self.model() == RunModel { phase: Phase::Done, ..m });
                            return EngineAction::Finished;
                        },
                    };
                    if status == ExecutionStatus::Cancelled {
                        self.phase = Phase::Done;
                        assert(self.model() == RunModel { phase: Phase::Done, ..m });
                        return EngineAction::Finished;
                    }
                    if self.job_index >= self.pipeline.jobs.len() {
                        store.advance_pipeline_status(pid, ExecutionStatus::Completed);
                        proof {
                            store.lemma_wf_inv();
                            lemma_guarded_writes(before, pid, 0, 0, ExecutionStatus::Completed);
                            lemma_engine_step_trans(v0, before, store@);
                            lemma_pipeline_terminal_after(before, pid, ExecutionStatus::Completed);
                        }
                        self.phase = Phase::Done;
                        assert(self.model() == RunModel { phase: Phase::Done, ..m });
                        return EngineAction::Finished;
                    }
                    let jid = self.pipeline.jobs[self.job_index];
                    let job = match store.get_job(jid) {
                        Ok(j) => j,
                        Err(_) => {
                            self.fail(store, String::from_str("job vanished"), now);
                            proof { lemma_engine_step_trans(v0, before, store@); }
                            assert(self.model() == RunModel { phase: Phase::Done, ..m });
                            return EngineAction::Finished;
                        },
                    };
                    store.advance_job_status(jid, ExecutionStatus::Running);
                    proof {
                        lemma_guarded_writes(before, 0, jid, 0, ExecutionStatus::Running);
                        lemma_engine_step_trans(v0, before, store@);
                    }
                    self.steps = job.steps;
                    self.step_index = 0;
                    self.phase = Phase::NextStep;
                    assert(self.model() == RunModel {
                        phase: Phase::NextStep,
                        steps: before.steps_of(jid).map_values(|x: StepRow| step_status_of(x)),
                        step_index: 0,
                        ..m
                    });
                },
                Phase::NextStep => {
                    let jid = self.pipeline.jobs[self.job_index];
                    let status = match store.job_status(jid) {
                        Ok(s) => s,
                        Err(_) => {
                            self.fail(store, String::from_str("job vanished"), now);
                            proof { lemma_engine_step_trans(v0, before, store@); }
                            assert(self.model() == RunModel { phase: Phase::Done, ..m });
                            return EngineAction::Finished;
                        },
                    };
                    if status == ExecutionStatus::Cancelled || self.step_index >= self.steps.len() {
                        if status != ExecutionStatus::Cancelled {
                            store.advance_job_status(jid, ExecutionStatus::Completed);
                            proof {
                                lemma_guarded_writes(before, 0, jid, 0, ExecutionStatus::Completed);
                                lemma_engine_step_trans(v0, before, store@);
                            }
                        }
                        let njobs = self.pipeline.jobs.len();
                        assert(self.job_index < njobs);
                        self.job_index = self.job_index + 1;
                        self.phase = Phase::NextJob;
                        assert(self.model() == RunModel { phase: Phase::NextJob, job_index: m.job_index + 1, ..m });
                    } else {
                        let context = match store.get_context(pid) {
                            Ok(c) => c,
                            Err(_) => {
                                self.fail(store, String::from_str("pipeline vanished"), now);
                                proof { lemma_engine_step_trans(v0, before, store@); }
                                assert(self.model() == RunModel { phase: Phase::Done, ..m });
                                return EngineAction::Finished;
                            },
                        };
                        let sid = self.steps[self.step_index].id;
                        store.advance_step_status(sid, ExecutionStatus::Running);
                        assert(store@.pipelines == before.pipelines);
                        proof {
                            lemma_guarded_writes(before, 0, 0, sid, ExecutionStatus::Running);
                            lemma_engine_step_trans(v0, before, store@);
                        }
                        self.phase = Phase::Running;
                        assert(self.model() == RunModel { phase: Phase::Running, ..m });
                        let step = self.steps[self.step_index].deep_clone();
                        let ctx = StepContext::new(step, self.pipeline.deep_clone(), context.files);
                        return EngineAction::Run(ctx);
                    }
                },
                _ => {
                    self.phase = Phase::Done;
                    assert(self.model() == RunModel { phase: Phase::Done, ..m });
                    return EngineAction::Finished;
                },
            }
        }
    }

    /// Records how the step handed out by `advance` ended, given the
    /// runtime it ran with. Its log buffer is persisted either way. On
    /// success the step becomes `Completed` and the run moves to the next
    /// step; on failure the step, its job and the
    /// pipeline become `Failed`, the error is recorded and the run is over.
    /// Statuses that are already terminal stay as they are.
    pub fn finish_step(&mut self, store: &mut Store, outcome: StepOutcome, ctx: &StepContext, now: u64)
        requires
            old(store).wf(),
            old(self).wf(),
            old(self).phase is Running,
        ensures
            final(store).wf(),
            final(self).wf(),
            engine_step(old(store)@, final(store)@),
            final(self).pipeline == old(self).pipeline,
            final(self).job_index == old(self).job_index,
            final(self).steps == old(self).steps,
            match outcome {
                StepOutcome::Succeeded => {
                    &&& final(self).phase is NextStep
                    &&& final(self).step_index == old(self).step_index + 1
                    &&& final(store)@ == succeeded_spec(old(store)@, old(self).current_step().id, ctx.log_view())
                },
                StepOutcome::Failed(message) => {
                    let failed = failed_spec(
                        old(store)@,
                        old(self).pipeline.id,
                        old(self).current_job(),
                        old(self).current_step().id,
                        ctx.log_view(),
                    );
                    &&& final(self).phase is Done
                    &&& final(self).step_index == old(self).step_index
                    &&& (final(store)@ == failed.record_error_spec(old(self).pipeline.id, message@, now)
                        || (failed.next_error_id == u32::MAX && final(store)@ == failed))
                },
            },
    {
        let pid = self.pipeline.id;
        let jid = self.pipeline.jobs[self.job_index];
        let sid = self.steps[self.step_index].id;
        let ghost v0 = store@;
        let log = ctx.get_log();
        store.set_step_log(sid, &log);
        let ghost v1 = store@;
        proof {
            lemma_log_write(v0, sid, log@);
        }
        match outcome {
            StepOutcome::Succeeded => {
                store.advance_step_status(sid, ExecutionStatus::Completed);
                proof {
                    lemma_guarded_writes(v1, 0, 0, sid, ExecutionStatus::Completed);
                    lemma_engine_step_trans(v0, v1, store@);
                }
                let nsteps = self.steps.len();
                assert(self.step_index < nsteps);
                self.step_index = self.step_index + 1;
                self.phase = Phase::NextStep;
            },
            StepOutcome::Failed(message) => {
                store.advance_step_status(sid, ExecutionStatus::Failed);
                let ghost v2 = store@;
                store.advance_job_status(jid, ExecutionStatus::Failed);
                let ghost v3 = store@;
                store.advance_pipeline_status(pid, ExecutionStatus::Failed);
                let ghost v4 = store@;
                proof {
                    lemma_guarded_writes(v1, 0, 0, sid, ExecutionStatus::Failed);
                    lemma_guarded_writes(v2, 0, jid, 0, ExecutionStatus::Failed);
                    lemma_guarded_writes(v3, pid, 0, 0, ExecutionStatus::Failed);
                    lemma_engine_step_trans(v0, v1, v2);
                    lemma_engine_step_trans(v0, v2, v3);
                    lemma_engine_step_trans(v0, v3, v4);
                }
                let _ = store.record_error(pid, message, now);
                proof {
                    if store@ != v4 {
                        lemma_error_write(v4, pid, message@, now);
                    }
                    lemma_engine_step_trans(v0, v4, store@);
                }
                self.phase = Phase::Done;
            },
        }
    }
}

} // verus!
