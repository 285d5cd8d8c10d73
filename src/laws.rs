use vstd::prelude::*;

use crate::config::JobView;
use crate::context::ContextView;
use crate::engine::{advance_spec, engine_step, failed_spec, phase_rank, succeeded_spec, RunModel};
use crate::status::ExecutionStatus;
use crate::store::{
    job_step_rows, lemma_unique_index, log_bytes, new_job_rows, new_step_rows, step_count, step_rows_in, JobRow,
    PipelineRow, StepRow, StoreView,
};

verus! {

/// One request of the service (submit, cancel a pipeline or a job, delete,
/// store an object), or one step of the engine, turns `a` into `b`.
pub open spec fn service_step(a: StoreView, b: StoreView) -> bool {
    ||| exists|ctx: ContextView| a.has_room(ctx) && b == a.insert_pipeline_spec(ctx)
    ||| exists|id: u32| b == a.cancel_pipeline_spec(id)
    ||| exists|id: u32| b == a.cancel_job_spec(id)
    ||| exists|id: u32| b == a.delete_pipeline_spec(id)
    ||| exists|ns: Seq<char>, k: Seq<u8>, v: Seq<u8>| b == a.put_object_spec(ns, k, v)
    ||| engine_step(a, b)
}

/// A sequence of store states, each produced from the one before by a
/// service step.
pub open spec fn valid_trace(trace: Seq<StoreView>) -> bool {
    &&& forall|k: int| 0 <= k < trace.len() ==> (#[trigger] trace[k]).inv()
    &&& forall|k: int|
        0 <= k < trace.len() - 1 ==> service_step(#[trigger] trace[k], trace[k + 1])
}

/// Id `id` has been handed out, and every row with that id has status `s`.
pub open spec fn settled(v: StoreView, id: u32, s: ExecutionStatus) -> bool {
    &&& id < v.next_pipeline_id
    &&& forall|i: int| 0 <= i < v.pipelines.len() && (#[trigger] v.pipelines[i]).id == id ==> v.pipelines[i].status == s
}

proof fn lemma_settled_step(a: StoreView, b: StoreView, id: u32, s: ExecutionStatus)
    requires
        a.inv(),
        settled(a, id, s),
        s.is_terminal(),
        service_step(a, b),
    ensures
        settled(b, id, s),
{
    if exists|ctx: ContextView| a.has_room(ctx) && b == a.insert_pipeline_spec(ctx) {
        let ctx = choose|ctx: ContextView| a.has_room(ctx) && b == a.insert_pipeline_spec(ctx);
        assert forall|i: int| 0 <= i < b.pipelines.len() && (#[trigger] b.pipelines[i]).id == id implies b.pipelines[i].status
            == s by {
            if i < a.pipelines.len() {
                assert(b.pipelines[i] == a.pipelines[i]);
            }
        }
    } else if exists|x: u32| b == a.cancel_pipeline_spec(x) {
        let x = choose|x: u32| b == a.cancel_pipeline_spec(x);
        if !a.finished_pipeline(x) {
            assert forall|i: int| 0 <= i < b.pipelines.len() && (#[trigger] b.pipelines[i]).id == id implies b.pipelines[i].status
                == s by {
                assert(a.pipelines[i].id == id);
                if x == id {
                    assert(a.pipelines[i].status == s);
                    let k = choose|k: int| 0 <= k < a.pipelines.len() && (#[trigger] a.pipelines[k]).id == id;
                    assert(a.pipelines[k].status == s);
                }
            }
        }
    } else if exists|x: u32| b == a.cancel_job_spec(x) {
    } else if exists|x: u32| b == a.delete_pipeline_spec(x) {
        let x = choose|x: u32| b == a.delete_pipeline_spec(x);
        assert forall|i: int| 0 <= i < b.pipelines.len() && (#[trigger] b.pipelines[i]).id == id implies b.pipelines[i].status
            == s by {
            let r = b.pipelines[i];
            assert(b.pipelines.contains(r));
            a.pipelines.lemma_filter_contains_rev(|p: PipelineRow| p.id != x, r);
            let m = choose|m: int| 0 <= m < a.pipelines.len() && a.pipelines[m] == r;
            assert(a.pipelines[m].id == id);
        }
    } else if exists|ns: Seq<char>, k: Seq<u8>, v: Seq<u8>| b == a.put_object_spec(ns, k, v) {
    } else {
        assert(engine_step(a, b));
        assert forall|i: int| 0 <= i < b.pipelines.len() && (#[trigger] b.pipelines[i]).id == id implies b.pipelines[i].status
            == s by {
            assert(b.pipelines[i] == PipelineRow { status: b.pipelines[i].status, ..a.pipelines[i] });
            assert(a.pipelines[i].id == id);
        }
    }
}

proof fn lemma_settled_trace(trace: Seq<StoreView>, i: int, j: int, id: u32, s: ExecutionStatus)
    requires
        valid_trace(trace),
        0 <= i <= j < trace.len(),
        settled(trace[i], id, s),
        s.is_terminal(),
    ensures
        settled(trace[j], id, s),
    decreases j - i,
{
    if i < j {
        lemma_settled_trace(trace, i, j - 1, id, s);
        assert(trace[j - 1].inv());
        assert(service_step(trace[j - 1], trace[j]));
        lemma_settled_step(trace[j - 1], trace[j], id, s);
    }
}

proof fn lemma_settled_from_row(v: StoreView, id: u32)
    requires
        v.inv(),
        v.has_pipeline(id),
    ensures
        settled(v, id, v.pipeline(id).status),
{
    let k = choose|k: int| 0 <= k < v.pipelines.len() && (#[trigger] v.pipelines[k]).id == id;
    assert(v.pipeline_ids()[k] == id);
    assert forall|i: int| 0 <= i < v.pipelines.len() && (#[trigger] v.pipelines[i]).id == id implies v.pipelines[i].status
        == v.pipeline(id).status by {
        assert(v.pipeline_ids()[i] == v.pipeline_ids()[k]);
        lemma_unique_index(v.pipeline_ids(), v.next_pipeline_id, i, k);
    }
}

/// Terminal stickiness: once pipeline `id` is seen in a terminal status,
/// every later state that still holds it shows that same status. This holds
/// along any sequence of requests and engine steps.
pub proof fn lemma_terminal_stickiness(trace: Seq<StoreView>, i: int, j: int, id: u32)
    requires
        valid_trace(trace),
        0 <= i <= j < trace.len(),
        trace[i].has_pipeline(id),
        trace[i].pipeline(id).status.is_terminal(),
        trace[j].has_pipeline(id),
    ensures
        trace[j].pipeline(id).status == trace[i].pipeline(id).status,
{
    assert(trace[i].inv());
    lemma_settled_from_row(trace[i], id);
    lemma_settled_trace(trace, i, j, id, trace[i].pipeline(id).status);
    let v = trace[j];
    let k = choose|k: int| 0 <= k < v.pipelines.len() && (#[trigger] v.pipelines[k]).id == id;
}

/// Cancel dominance: once pipeline `id` has been cancelled before it
/// completed or failed, every later
/// state that still holds it shows it `Cancelled`, never `Completed` or
/// `Failed`.
pub proof fn lemma_cancel_dominance(trace: Seq<StoreView>, i: int, j: int, id: u32)
    requires
        valid_trace(trace),
        0 <= i < j < trace.len(),
        trace[i].has_pipeline(id),
        !trace[i].finished_pipeline(id),
        trace[i + 1] == trace[i].cancel_pipeline_spec(id),
        trace[j].has_pipeline(id),
    ensures
        trace[j].pipeline(id).status is Cancelled,
{
    let a = trace[i];
    let b = trace[i + 1];
    assert(a.inv());
    let k = choose|k: int| 0 <= k < a.pipelines.len() && (#[trigger] a.pipelines[k]).id == id;
    assert(a.pipeline_ids()[k] == id);
    assert(settled(b, id, ExecutionStatus::Cancelled));
    lemma_settled_trace(trace, i + 1, j, id, ExecutionStatus::Cancelled);
    let v = trace[j];
    let m = choose|m: int| 0 <= m < v.pipelines.len() && (#[trigger] v.pipelines[m]).id == id;
}


proof fn lemma_filter_all<A>(s: Seq<A>, p: spec_fn(A) -> bool)
    requires
        forall|i: int| 0 <= i < s.len() ==> p(#[trigger] s[i]),
    ensures
        s.filter(p) == s,
    decreases s.len(),
{
    if s.len() == 0 {
        assert(s.filter(p).len() <= s.len()) by {
            s.filter_lemma(p);
        }
        assert(s.filter(p) =~= s);
    } else {
        lemma_filter_all(s.drop_last(), p);
        s.drop_last().lemma_filter_push(s.last(), p);
        assert(s.drop_last().push(s.last()) =~= s);
    }
}

proof fn lemma_filter_none<A>(s: Seq<A>, p: spec_fn(A) -> bool)
    requires
        forall|i: int| 0 <= i < s.len() ==> !p(#[trigger] s[i]),
    ensures
        s.filter(p) == Seq::<A>::empty(),
    decreases s.len(),
{
    if s.len() == 0 {
        assert(s.filter(p).len() <= s.len()) by {
            s.filter_lemma(p);
        }
        assert(s.filter(p) =~= Seq::<A>::empty());
    } else {
        lemma_filter_none(s.drop_last(), p);
        s.drop_last().lemma_filter_push(s.last(), p);
        assert(s.drop_last().push(s.last()) =~= s);
    }
}

proof fn lemma_new_step_rows_jobs(pid: u32, fj: u32, fs: u32, jobs: Seq<JobView>)
    requires
        fj + jobs.len() <= u32::MAX,
    ensures
        forall|i: int| 0 <= i < new_step_rows(pid, fj, fs, jobs).len() ==> fj <= (#[trigger] new_step_rows(pid, fj, fs, jobs)[i]).job_id
            < fj + jobs.len(),
    decreases jobs.len(),
{
    if jobs.len() > 0 {
        lemma_new_step_rows_jobs(pid, fj, fs, jobs.drop_last());
    }
}

proof fn lemma_job_rows_of(pid: u32, fj: u32, fs: u32, jobs: Seq<JobView>, j: int)
    requires
        0 <= j < jobs.len(),
        fj + jobs.len() <= u32::MAX,
    ensures
        step_rows_in(new_step_rows(pid, fj, fs, jobs), (fj + j) as u32) == job_step_rows(
            pid,
            (fj + j) as u32,
            fs + step_count(jobs.take(j)),
            jobs[j].steps,
        ),
    decreases jobs.len(),
{
    let k = jobs.len() - 1;
    let prev = jobs.drop_last();
    let head = new_step_rows(pid, fj, fs, prev);
    let tail = job_step_rows(pid, (fj + k) as u32, fs + step_count(prev), jobs[k].steps);
    let jid = (fj + j) as u32;
    assert(new_step_rows(pid, fj, fs, jobs) == head + tail);
    Seq::filter_distributes_over_add(head, tail, |r: StepRow| r.job_id == jid);
    if j == k {
        lemma_new_step_rows_jobs(pid, fj, fs, prev);
        lemma_filter_none(head, |r: StepRow| r.job_id == jid);
        lemma_filter_all(tail, |r: StepRow| r.job_id == jid);
        assert(jobs.take(j) =~= prev);
        assert(Seq::<StepRow>::empty() + tail =~= tail);
    } else {
        lemma_filter_none(tail, |r: StepRow| r.job_id == jid);
        lemma_job_rows_of(pid, fj, fs, prev, j);
        assert(prev.take(j) =~= jobs.take(j));
        assert(head.filter(|r: StepRow| r.job_id == jid) + Seq::<StepRow>::empty() =~= head.filter(|r: StepRow| r.job_id == jid));
    }
}

/// Order preservation: once a submission is inserted, its pipeline lists its
/// jobs in declared order, and each of its jobs lists its steps in declared
/// order.
pub proof fn lemma_order_preserved(v: StoreView, ctx: ContextView)
    requires
        v.inv(),
        v.has_room(ctx),
    ensures
        v.insert_pipeline_spec(ctx).jobs_of(v.next_pipeline_id) == Seq::new(
            ctx.config.jobs.len(),
            |j: int| (v.next_job_id + j) as u32,
        ),
        forall|j: int|
            0 <= j < ctx.config.jobs.len() ==> (#[trigger] v.insert_pipeline_spec(ctx).steps_of((v.next_job_id + j) as u32)).map_values(
                |r: StepRow| r.config,
            ) == ctx.config.jobs[j].steps,
{
    let w = v.insert_pipeline_spec(ctx);
    let pid = v.next_pipeline_id;
    let jobs = ctx.config.jobs;
    let added = new_job_rows(pid, v.next_job_id, jobs);
    Seq::filter_distributes_over_add(v.jobs, added, |r: JobRow| r.pipeline_id == pid);
    lemma_filter_none(v.jobs, |r: JobRow| r.pipeline_id == pid);
    lemma_filter_all(added, |r: JobRow| r.pipeline_id == pid);
    assert(Seq::<JobRow>::empty() + added =~= added);
    assert(added.map_values(|r: JobRow| r.id) =~= Seq::new(jobs.len(), |j: int| (v.next_job_id + j) as u32));
    assert forall|j: int| 0 <= j < jobs.len() implies (#[trigger] w.steps_of((v.next_job_id + j) as u32)).map_values(
        |r: StepRow| r.config,
    ) == jobs[j].steps by {
        let jid = (v.next_job_id + j) as u32;
        let fresh = new_step_rows(pid, v.next_job_id, v.next_step_id, jobs);
        Seq::filter_distributes_over_add(v.steps, fresh, |r: StepRow| r.job_id == jid);
        lemma_filter_none(v.steps, |r: StepRow| r.job_id == jid);
        lemma_job_rows_of(pid, v.next_job_id, v.next_step_id, jobs, j);
        let rows = job_step_rows(pid, jid, v.next_step_id + step_count(jobs.take(j)), jobs[j].steps);
        assert(Seq::<StepRow>::empty() + rows =~= rows);
        assert(rows.map_values(|r: StepRow| r.config) =~= jobs[j].steps);
    }
}

/// Delete cascade: after `delete_pipeline(id)` neither the pipeline, nor any
/// of its jobs, nor any step of those jobs can be found.
pub proof fn lemma_delete_cascade(v: StoreView, id: u32)
    requires
        v.inv(),
    ensures
        !v.delete_pipeline_spec(id).has_pipeline(id),
        forall|j: u32| v.has_job(j) && v.job(j).pipeline_id == id ==> !(#[trigger] v.delete_pipeline_spec(id).has_job(j)),
        forall|s: u32| v.has_step(s) && v.step(s).pipeline_id == id ==> !(#[trigger] v.delete_pipeline_spec(id).has_step(s)),
        forall|s: u32, j: u32|
            v.has_step(s) && v.has_job(j) && #[trigger] v.step(s).job_id == j && #[trigger] v.job(j).pipeline_id == id
                ==> !v.delete_pipeline_spec(id).has_step(s),
{
    let w = v.delete_pipeline_spec(id);
    v.pipelines.filter_lemma(|r: PipelineRow| r.id != id);
    v.jobs.filter_lemma(|r: JobRow| r.pipeline_id != id);
    v.steps.filter_lemma(|r: StepRow| r.pipeline_id != id);
    assert forall|j: u32| v.has_job(j) && v.job(j).pipeline_id == id implies !(#[trigger] w.has_job(j)) by {
        if w.has_job(j) {
            let i = choose|i: int| 0 <= i < w.jobs.len() && (#[trigger] w.jobs[i]).id == j;
            let r = w.jobs[i];
            assert(w.jobs.contains(r));
            v.jobs.lemma_filter_contains_rev(|r: JobRow| r.pipeline_id != id, r);
            let m = choose|m: int| 0 <= m < v.jobs.len() && v.jobs[m] == r;
            let k = choose|k: int| 0 <= k < v.jobs.len() && (#[trigger] v.jobs[k]).id == j;
            assert(v.job_ids()[m] == v.job_ids()[k]);
            lemma_unique_index(v.job_ids(), v.next_job_id, m, k);
        }
    }
    assert forall|s: u32, j: u32|
        v.has_step(s) && v.has_job(j) && #[trigger] v.step(s).job_id == j && #[trigger] v.job(j).pipeline_id == id
            implies v.step(s).pipeline_id == id by {
        let a = choose|a: int| 0 <= a < v.steps.len() && (#[trigger] v.steps[a]).id == s;
        let b = choose|b: int| 0 <= b < v.jobs.len() && (#[trigger] v.jobs[b]).id == j;
        assert(v.steps[a].job_id == v.jobs[b].id);
    }
    assert forall|s: u32| v.has_step(s) && v.step(s).pipeline_id == id implies !(#[trigger] w.has_step(s)) by {
        if w.has_step(s) {
            let i = choose|i: int| 0 <= i < w.steps.len() && (#[trigger] w.steps[i]).id == s;
            let r = w.steps[i];
            assert(w.steps.contains(r));
            v.steps.lemma_filter_contains_rev(|r: StepRow| r.pipeline_id != id, r);
            let m = choose|m: int| 0 <= m < v.steps.len() && v.steps[m] == r;
            let k = choose|k: int| 0 <= k < v.steps.len() && (#[trigger] v.steps[k]).id == s;
            assert(v.step_ids()[m] == v.step_ids()[k]);
            lemma_unique_index(v.step_ids(), v.next_step_id, m, k);
        }
    }
}

/// Object round trip: after `put_object(ns, key, value)` the store holds
/// `value` under `(ns, key)`, replacing what was there, and every other
/// object is as it was.
pub proof fn lemma_object_round_trip(v: StoreView, ns: Seq<char>, key: Seq<u8>, value: Seq<u8>)
    ensures
        v.put_object_spec(ns, key, value).objects.contains_key((ns, key)),
        v.put_object_spec(ns, key, value).objects[(ns, key)] == value,
        forall|k: (Seq<char>, Seq<u8>)|
            k != (ns, key) ==> (#[trigger] v.put_object_spec(ns, key, value).objects.contains_key(k)) == v.objects.contains_key(k)
                && v.put_object_spec(ns, key, value).objects[k] == v.objects[k],
{
}

proof fn lemma_step_row_of(a: StoreView, b: StoreView, sid: u32)
    requires
        a.inv(),
        a.has_step(sid),
        b.steps.len() == a.steps.len(),
        forall|i: int| 0 <= i < a.steps.len() ==> (#[trigger] b.steps[i]).id == a.steps[i].id,
    ensures
        b.has_step(sid),
        exists|i: int| 0 <= i < a.steps.len() && a.steps[i].id == sid && b.step(sid) == b.steps[i] && a.step(sid) == a.steps[i],
{
    let k = choose|k: int| 0 <= k < a.steps.len() && (#[trigger] a.steps[k]).id == sid;
    assert(b.steps[k].id == sid);
    let m = choose|m: int| 0 <= m < b.steps.len() && (#[trigger] b.steps[m]).id == sid;
    assert(a.step_ids()[m] == a.step_ids()[k]);
    lemma_unique_index(a.step_ids(), a.next_step_id, m, k);
}

/// Log durability: once step `sid` has ended, by success or by failure, the
/// log that the store returns for it is exactly the log it produced.
pub proof fn lemma_log_durable(v: StoreView, pid: u32, jid: u32, sid: u32, log: Seq<u8>, message: Seq<char>, now: u64)
    requires
        v.inv(),
        v.has_step(sid),
    ensures
        succeeded_spec(v, sid, log).has_step(sid),
        log_bytes(succeeded_spec(v, sid, log).step(sid)) == log,
        failed_spec(v, pid, jid, sid, log).has_step(sid),
        log_bytes(failed_spec(v, pid, jid, sid, log).step(sid)) == log,
        failed_spec(v, pid, jid, sid, log).record_error_spec(pid, message, now).has_step(sid),
        log_bytes(failed_spec(v, pid, jid, sid, log).record_error_spec(pid, message, now).step(sid)) == log,
{
    let a = succeeded_spec(v, sid, log);
    let b = failed_spec(v, pid, jid, sid, log);
    let c = b.record_error_spec(pid, message, now);
    lemma_step_row_of(v, a, sid);
    lemma_step_row_of(v, b, sid);
    lemma_step_row_of(v, c, sid);
}


/// Log durability across the rest of a run: `advance` leaves every step's
/// log as it was, so a log persisted when its step ended stays.
pub proof fn lemma_advance_keeps_logs(pid: u32, jobs: Seq<u32>, m: RunModel, v: StoreView, now: u64)
    ensures
        advance_spec(pid, jobs, m, v, now).1.steps.len() == v.steps.len(),
        forall|i: int|
            0 <= i < v.steps.len() ==> (#[trigger] advance_spec(pid, jobs, m, v, now).1.steps[i]).log == v.steps[i].log
                && advance_spec(pid, jobs, m, v, now).1.steps[i].id == v.steps[i].id,
    decreases jobs.len() - m.job_index, phase_rank(m.phase),
{
    let done = RunModel { phase: crate::engine::Phase::Done, ..m };
    match m.phase {
        crate::engine::Phase::Start => {
            lemma_advance_keeps_logs(
                pid,
                jobs,
                RunModel { phase: crate::engine::Phase::NextJob, ..m },
                v.with_pipeline_status(pid, crate::status::ExecutionStatus::Running, true),
                now,
            );
        },
        crate::engine::Phase::NextJob => {
            if v.has_pipeline(pid) && !(v.pipeline(pid).status is Cancelled) && 0 <= m.job_index < jobs.len()
                && v.has_job(jobs[m.job_index]) {
                let jid = jobs[m.job_index];
                lemma_advance_keeps_logs(
                    pid,
                    jobs,
                    RunModel {
                        phase: crate::engine::Phase::NextStep,
                        steps: v.steps_of(jid).map_values(|x: StepRow| crate::store::step_status_of(x)),
                        step_index: 0,
                        ..m
                    },
                    v.with_job_status(crate::store::Selector::ById, jid, crate::status::ExecutionStatus::Running, true),
                    now,
                );
            }
        },
        crate::engine::Phase::NextStep => {
            if 0 <= m.job_index < jobs.len() {
                let jid = jobs[m.job_index];
                if v.has_job(jid) && (v.job(jid).status is Cancelled || m.step_index < 0 || m.step_index >= m.steps.len()) {
                    let w = if v.job(jid).status is Cancelled {
                        v
                    } else {
                        v.with_job_status(crate::store::Selector::ById, jid, crate::status::ExecutionStatus::Completed, true)
                    };
                    lemma_advance_keeps_logs(
                        pid,
                        jobs,
                        RunModel { phase: crate::engine::Phase::NextJob, job_index: m.job_index + 1, ..m },
                        w,
                        now,
                    );
                }
            }
        },
        _ => {},
    }
}


proof fn lemma_filter_map_congruent<A, B>(
    s: Seq<A>,
    t: Seq<A>,
    p: spec_fn(A) -> bool,
    q: spec_fn(A) -> bool,
    f: spec_fn(A) -> B,
    g: spec_fn(A) -> B,
)
    requires
        s.len() == t.len(),
        forall|i: int| 0 <= i < s.len() ==> p(s[i]) == q(t[i]) && (p(s[i]) ==> f(s[i]) == g(t[i])),
    ensures
        s.filter(p).map_values(f) == t.filter(q).map_values(g),
    decreases s.len(),
{
    if s.len() == 0 {
        s.filter_lemma(p);
        t.filter_lemma(q);
        assert(s.filter(p).map_values(f) =~= t.filter(q).map_values(g));
    } else {
        let s0 = s.drop_last();
        let t0 = t.drop_last();
        assert forall|i: int| 0 <= i < s0.len() implies p(s0[i]) == q(t0[i]) && (p(s0[i]) ==> f(s0[i]) == g(t0[i])) by {
            assert(s0[i] == s[i] && t0[i] == t[i]);
        }
        lemma_filter_map_congruent(s0, t0, p, q, f, g);
        s0.lemma_filter_push(s.last(), p);
        t0.lemma_filter_push(t.last(), q);
        assert(s0.push(s.last()) =~= s);
        assert(t0.push(t.last()) =~= t);
        if p(s.last()) {
            assert(s0.filter(p).push(s.last()).map_values(f) =~= s0.filter(p).map_values(f).push(f(s.last())));
            assert(t0.filter(q).push(t.last()).map_values(g) =~= t0.filter(q).map_values(g).push(g(t.last())));
        }
    }
}

proof fn lemma_filter_within<A>(s: Seq<A>, keep: spec_fn(A) -> bool, p: spec_fn(A) -> bool)
    requires
        forall|i: int| 0 <= i < s.len() && p(s[i]) ==> keep(s[i]),
    ensures
        s.filter(keep).filter(p) == s.filter(p),
    decreases s.len(),
{
    if s.len() == 0 {
        s.filter_lemma(p);
        s.filter_lemma(keep);
        s.filter(keep).filter_lemma(p);
        assert(s.filter(keep).filter(p) =~= s.filter(p));
    } else {
        let s0 = s.drop_last();
        assert forall|i: int| 0 <= i < s0.len() && p(s0[i]) implies keep(s0[i]) by {
            assert(s0[i] == s[i]);
        }
        lemma_filter_within(s0, keep, p);
        s0.lemma_filter_push(s.last(), keep);
        s0.lemma_filter_push(s.last(), p);
        s0.filter(keep).lemma_filter_push(s.last(), p);
        assert(s0.push(s.last()) =~= s);
    }
}

/// Job `jid` is listed among the jobs of pipeline `pid`.
pub open spec fn job_listed(v: StoreView, pid: u32, jid: u32) -> bool {
    v.jobs_of(pid).contains(jid)
}

/// One service step keeps the structure of a pipeline that it does not
/// delete: its job ids in order, and each of its jobs' step configs in order.
proof fn lemma_structure_kept(a: StoreView, b: StoreView, pid: u32)
    requires
        a.inv(),
        service_step(a, b),
        a.has_pipeline(pid),
        b.has_pipeline(pid),
    ensures
        b.jobs_of(pid) == a.jobs_of(pid),
        forall|jid: u32| job_listed(a, pid, jid) ==> (#[trigger] b.steps_of(jid)).map_values(|r: StepRow| r.config)
            == a.steps_of(jid).map_values(|r: StepRow| r.config),
{
    let pk = |r: JobRow| r.pipeline_id == pid;
    let id_of = |r: JobRow| r.id;
    let cfg = |r: StepRow| r.config;
    let k0 = choose|k: int| 0 <= k < a.pipelines.len() && (#[trigger] a.pipelines[k]).id == pid;
    assert(a.pipeline_ids()[k0] == pid);
    if exists|ctx: ContextView| a.has_room(ctx) && b == a.insert_pipeline_spec(ctx) {
        let ctx = choose|ctx: ContextView| a.has_room(ctx) && b == a.insert_pipeline_spec(ctx);
        let added = new_job_rows(a.next_pipeline_id, a.next_job_id, ctx.config.jobs);
        Seq::filter_distributes_over_add(a.jobs, added, pk);
        lemma_filter_none(added, pk);
        assert(a.jobs.filter(pk) + Seq::<JobRow>::empty() =~= a.jobs.filter(pk));
        assert forall|jid: u32| job_listed(a, pid, jid) implies (#[trigger] b.steps_of(jid)).map_values(cfg)
            == a.steps_of(jid).map_values(cfg) by {
            let f = a.jobs.filter(pk);
            let ids = f.map_values(id_of);
            let k = choose|k: int| 0 <= k < ids.len() && #[trigger] ids[k] == jid;
            a.jobs.filter_lemma(pk);
            assert(f.contains(f[k]));
            a.jobs.lemma_filter_contains_rev(pk, f[k]);
            let m = choose|m: int| 0 <= m < a.jobs.len() && a.jobs[m] == f[k];
            assert(a.job_ids()[m] == jid);
            let fresh = new_step_rows(a.next_pipeline_id, a.next_job_id, a.next_step_id, ctx.config.jobs);
            let sk = |r: StepRow| r.job_id == jid;
            Seq::filter_distributes_over_add(a.steps, fresh, sk);
            lemma_new_step_rows_jobs(a.next_pipeline_id, a.next_job_id, a.next_step_id, ctx.config.jobs);
            lemma_filter_none(fresh, sk);
            assert(a.steps.filter(sk) + Seq::<StepRow>::empty() =~= a.steps.filter(sk));
        }
    } else if exists|x: u32| b == a.delete_pipeline_spec(x) {
        let x = choose|x: u32| b == a.delete_pipeline_spec(x);
        assert(x != pid) by {
            if x == pid {
                a.pipelines.filter_lemma(|r: PipelineRow| r.id != x);
            }
        }
        lemma_filter_within(a.jobs, |r: JobRow| r.pipeline_id != x, pk);
        assert forall|jid: u32| job_listed(a, pid, jid) implies (#[trigger] b.steps_of(jid)).map_values(cfg)
            == a.steps_of(jid).map_values(cfg) by {
            let f = a.jobs.filter(pk);
            let ids = f.map_values(id_of);
            let k = choose|k: int| 0 <= k < ids.len() && #[trigger] ids[k] == jid;
            a.jobs.filter_lemma(pk);
            assert(f.contains(f[k]));
            a.jobs.lemma_filter_contains_rev(pk, f[k]);
            let m = choose|m: int| 0 <= m < a.jobs.len() && a.jobs[m] == f[k];
            assert forall|i: int| 0 <= i < a.steps.len() && (|r: StepRow| r.job_id == jid)(a.steps[i]) implies (|r: StepRow|
                r.pipeline_id != x)(a.steps[i]) by {
                assert(a.steps[i].job_id == a.jobs[m].id);
            }
            lemma_filter_within(a.steps, |r: StepRow| r.pipeline_id != x, |r: StepRow| r.job_id == jid);
        }
    } else {
        assert(a.jobs.len() == b.jobs.len() && a.steps.len() == b.steps.len());
        assert forall|i: int| 0 <= i < a.jobs.len() implies b.jobs[i].id == a.jobs[i].id && b.jobs[i].pipeline_id
            == a.jobs[i].pipeline_id by {
            if exists|y: u32| b == a.cancel_pipeline_spec(y) {
            } else if exists|y: u32| b == a.cancel_job_spec(y) {
            } else if exists|ns: Seq<char>, k: Seq<u8>, v: Seq<u8>| b == a.put_object_spec(ns, k, v) {
            } else {
                assert(b.jobs[i] == JobRow { status: b.jobs[i].status, ..a.jobs[i] });
            }
        }
        assert forall|i: int| 0 <= i < a.steps.len() implies b.steps[i].job_id == a.steps[i].job_id && b.steps[i].config
            == a.steps[i].config by {
            if exists|y: u32| b == a.cancel_pipeline_spec(y) {
            } else if exists|y: u32| b == a.cancel_job_spec(y) {
            } else if exists|ns: Seq<char>, k: Seq<u8>, v: Seq<u8>| b == a.put_object_spec(ns, k, v) {
            } else {
                assert(b.steps[i] == StepRow { status: b.steps[i].status, log: b.steps[i].log, ..a.steps[i] });
            }
        }
        lemma_filter_map_congruent(b.jobs, a.jobs, pk, pk, id_of, id_of);
        assert forall|jid: u32| job_listed(a, pid, jid) implies (#[trigger] b.steps_of(jid)).map_values(cfg)
            == a.steps_of(jid).map_values(cfg) by {
            lemma_filter_map_congruent(b.steps, a.steps, |r: StepRow| r.job_id == jid, |r: StepRow| r.job_id == jid, cfg, cfg);
        }
    }
}

/// Order preservation over time: once a submission `ctx` is inserted as
/// pipeline `pid`, every later state that has held the pipeline all along
/// lists its jobs in declared order, and each job's steps in declared order.
pub proof fn lemma_order_kept(trace: Seq<StoreView>, i: int, k: int, ctx: ContextView)
    requires
        valid_trace(trace),
        0 <= i < k < trace.len(),
        trace[i].has_room(ctx),
        trace[i + 1] == trace[i].insert_pipeline_spec(ctx),
        forall|n: int| i + 1 <= n <= k ==> #[trigger] trace[n].has_pipeline(trace[i].next_pipeline_id),
    ensures
        trace[k].jobs_of(trace[i].next_pipeline_id) == Seq::new(
            ctx.config.jobs.len(),
            |j: int| (trace[i].next_job_id + j) as u32,
        ),
        forall|j: int|
            0 <= j < ctx.config.jobs.len() ==> (#[trigger] trace[k].steps_of((trace[i].next_job_id + j) as u32)).map_values(
                |r: StepRow| r.config,
            ) == ctx.config.jobs[j].steps,
    decreases k - i,
{
    let pid = trace[i].next_pipeline_id;
    let fj = trace[i].next_job_id;
    assert(trace[i].inv());
    if k == i + 1 {
        lemma_order_preserved(trace[i], ctx);
    } else {
        lemma_order_kept(trace, i, k - 1, ctx);
        assert(trace[k - 1].inv());
        assert(service_step(trace[k - 1], trace[k]));
        assert(trace[k - 1].has_pipeline(pid));
        lemma_structure_kept(trace[k - 1], trace[k], pid);
        assert forall|j: int| 0 <= j < ctx.config.jobs.len() implies (#[trigger] trace[k].steps_of(
            (fj + j) as u32,
        )).map_values(|r: StepRow| r.config) == ctx.config.jobs[j].steps by {
            let ids = trace[k - 1].jobs_of(pid);
            assert(ids[j] == (fj + j) as u32);
            assert(ids.contains((fj + j) as u32));
            assert(job_listed(trace[k - 1], pid, (fj + j) as u32));
        }
    }
}

} // verus!
