use pap::config::{ArgType, Config, Job, LoaderConfig, Project, Step};
use pap::context::Context;
use pap::engine::{EngineAction, PipelineRun, StepOutcome};
use pap::error::PapError;
use pap::registry::StepExecutorRegistry;
use pap::runtime::StepContext;
use pap::server::PipelineServer;
use pap::status::{ExecutionStatus, PipelineStatus};
use pap::steps::HelloStepExecutor;

#[derive(Clone, Copy, Debug, PartialEq)]
enum Kind {
    Hello,
    Ticker,
    Fail,
}

fn registry() -> StepExecutorRegistry<Kind> {
    let mut r = StepExecutorRegistry::new();
    r.register("hello".to_string(), Kind::Hello);
    r.register("ticker".to_string(), Kind::Ticker);
    r.register("fail".to_string(), Kind::Fail);
    r
}

fn step(name: &str, call: &str) -> Step {
    Step {
        name: name.to_string(),
        call: call.to_string(),
        args: vec![("name".to_string(), ArgType::String("world".to_string()))],
        io: vec![],
    }
}

fn config(jobs: Vec<Job>) -> Config {
    Config {
        projects: vec![Project {
            name: "testbin".to_string(),
            binary: "test.bin".to_string(),
            arch: "thumbv7m-none-eabi".to_string(),
            loader: Some(LoaderConfig { base_address: 0x8000000, stack_address: 0x20010000 }),
            mmio: vec![],
        }],
        jobs,
    }
}

fn submission(jobs: Vec<Job>) -> Context {
    Context::build_with_config(config(jobs), vec![("test.bin".to_string(), vec![0x01, 0x02])]).unwrap()
}

fn single(call: &str) -> Context {
    submission(vec![Job { name: "job".to_string(), steps: vec![step("greet", call)] }])
}

/// Runs one step in place of an executor; `ticker` cancels the pipeline
/// after its first tick, as a client would while it runs.
fn run_step(server: &mut PipelineServer<Kind>, kind: Kind, ctx: &mut StepContext) -> StepOutcome {
    match kind {
        Kind::Hello => match HelloStepExecutor.execute(ctx) {
            Ok(()) => StepOutcome::Succeeded,
            Err(e) => StepOutcome::Failed(e.message()),
        },
        Kind::Ticker => {
            let pid = ctx.pipeline_status.id;
            for i in 0..100 {
                ctx.log("tick");
                if server.store.is_step_cancelled(ctx.status.id).unwrap_or(false) {
                    break;
                }
                if i == 0 {
                    server.cancel_pipeline(pid).unwrap();
                }
            }
            StepOutcome::Succeeded
        },
        Kind::Fail => {
            ctx.log("about to fail");
            StepOutcome::Failed("boom".to_string())
        },
    }
}

fn drive(server: &mut PipelineServer<Kind>, status: PipelineStatus) {
    let mut run = PipelineRun::new(status);
    loop {
        match run.advance(&mut server.store, 7) {
            EngineAction::Finished => break,
            EngineAction::Run(mut ctx) => {
                let kind = server.registry.get(ctx.status.config.call.as_str()).copied();
                let outcome = match kind {
                    Some(k) => run_step(server, k, &mut ctx),
                    None => StepOutcome::missing_executor(ctx.status.config.call.as_str()),
                };
                run.finish_step(&mut server.store, outcome, &ctx, 7);
            },
        }
    }
}

#[test]
fn happy_path_single_step() {
    let mut server = PipelineServer::new(registry());
    let status = server.submit_pipeline(single("hello")).unwrap();
    let pid = status.id;
    assert_eq!(status.status, ExecutionStatus::Running);
    drive(&mut server, status);
    let p = server.get_pipeline(pid).unwrap();
    assert_eq!(p.status, ExecutionStatus::Completed);
    assert!(p.error.is_none());
    let job = server.get_job(p.jobs[0]).unwrap();
    assert_eq!(job.status, ExecutionStatus::Completed);
    assert_eq!(job.steps.len(), 1);
    assert_eq!(job.steps[0].status, ExecutionStatus::Completed);
    let log = server.get_step_log(job.steps[0].id).unwrap();
    assert!(log.ends_with(b"Hello, world!\n"));
}

#[test]
fn validation_failure() {
    let mut server = PipelineServer::new(registry());
    match server.submit_pipeline(single("nonesuch")) {
        Err(PapError::Configuration(m)) => assert_eq!(m, "step executor not found: nonesuch"),
        other => panic!("unexpected: {:?}", other),
    }
    assert_eq!(server.get_pipelines().unwrap(), Vec::<u32>::new());
    assert_eq!(server.get_jobs().unwrap(), Vec::<u32>::new());
}

#[test]
fn cancellation_mid_flight() {
    let mut server = PipelineServer::new(registry());
    let status = server.submit_pipeline(single("ticker")).unwrap();
    let pid = status.id;
    drive(&mut server, status);
    let p = server.get_pipeline(pid).unwrap();
    assert_eq!(p.status, ExecutionStatus::Cancelled);
    let job = server.get_job(p.jobs[0]).unwrap();
    assert_eq!(job.status, ExecutionStatus::Cancelled);
    assert_eq!(job.steps[0].status, ExecutionStatus::Cancelled);
    let log = server.get_step_log(job.steps[0].id).unwrap();
    assert!(log.starts_with(b"tick\n"));
}

#[test]
fn failure_semantics() {
    let mut server = PipelineServer::new(registry());
    let jobs = vec![
        Job { name: "first".to_string(), steps: vec![step("explode", "fail")] },
        Job { name: "second".to_string(), steps: vec![step("greet", "hello")] },
    ];
    let status = server.submit_pipeline(submission(jobs)).unwrap();
    let pid = status.id;
    drive(&mut server, status);
    let p = server.get_pipeline(pid).unwrap();
    assert_eq!(p.status, ExecutionStatus::Failed);
    let first = server.get_job(p.jobs[0]).unwrap();
    let second = server.get_job(p.jobs[1]).unwrap();
    assert_eq!(first.status, ExecutionStatus::Failed);
    assert_eq!(first.steps[0].status, ExecutionStatus::Failed);
    assert_eq!(second.status, ExecutionStatus::Pending);
    assert_eq!(second.steps[0].status, ExecutionStatus::Pending);
    assert_eq!(server.get_step_log(first.steps[0].id).unwrap(), b"about to fail\n".to_vec());
    assert_eq!(server.store.error_messages(pid), vec!["boom".to_string()]);
}

#[test]
fn object_store_round_trip() {
    let mut server = PipelineServer::new(registry());
    server.put_object("ns".to_string(), vec![0x00, 0x01], b"abc".to_vec()).unwrap();
    assert_eq!(server.get_object("ns".to_string(), vec![0x00, 0x01]).unwrap(), b"abc".to_vec());
    assert!(matches!(server.get_object("ns".to_string(), vec![0xff]), Err(PapError::NotFound(_))));
    server.put_object("ns".to_string(), vec![0x00, 0x01], b"xyz".to_vec()).unwrap();
    assert_eq!(server.get_object("ns".to_string(), vec![0x00, 0x01]).unwrap(), b"xyz".to_vec());
    assert!(matches!(server.get_object("other".to_string(), vec![0x00, 0x01]), Err(PapError::NotFound(_))));
}

#[test]
fn delete_cascade() {
    let mut server = PipelineServer::new(registry());
    let status = server.submit_pipeline(single("hello")).unwrap();
    let pid = status.id;
    drive(&mut server, status);
    let p = server.get_pipeline(pid).unwrap();
    assert_eq!(p.status, ExecutionStatus::Completed);
    let jid = p.jobs[0];
    let sid = server.get_job(jid).unwrap().steps[0].id;
    server.delete_pipeline(pid).unwrap();
    assert!(matches!(server.get_pipeline(pid), Err(PapError::NotFound(_))));
    assert!(matches!(server.get_job(jid), Err(PapError::NotFound(_))));
    assert!(matches!(server.get_step_log(sid), Err(PapError::NotFound(_))));
    assert_eq!(server.get_pipelines().unwrap(), Vec::<u32>::new());
}

#[test]
fn cancel_before_start_wins() {
    let mut server = PipelineServer::new(registry());
    let status = server.submit_pipeline(single("hello")).unwrap();
    let pid = status.id;
    server.cancel_pipeline(pid).unwrap();
    drive(&mut server, status);
    let p = server.get_pipeline(pid).unwrap();
    assert_eq!(p.status, ExecutionStatus::Cancelled);
    let job = server.get_job(p.jobs[0]).unwrap();
    assert_eq!(job.steps[0].status, ExecutionStatus::Cancelled);
    assert_eq!(server.get_step_log(job.steps[0].id).unwrap(), Vec::<u8>::new());
}

#[test]
fn cancelled_job_is_skipped() {
    let mut server = PipelineServer::new(registry());
    let jobs = vec![
        Job { name: "first".to_string(), steps: vec![step("a", "hello")] },
        Job { name: "second".to_string(), steps: vec![step("b", "hello")] },
    ];
    let status = server.submit_pipeline(submission(jobs)).unwrap();
    let pid = status.id;
    let second = status.jobs[1];
    server.cancel_job(second).unwrap();
    drive(&mut server, status);
    assert_eq!(server.get_pipeline(pid).unwrap().status, ExecutionStatus::Completed);
    let j1 = server.get_job(server.get_pipeline(pid).unwrap().jobs[0]).unwrap();
    let j2 = server.get_job(second).unwrap();
    assert_eq!(j1.status, ExecutionStatus::Completed);
    assert_eq!(j2.status, ExecutionStatus::Cancelled);
    assert_eq!(j2.steps[0].status, ExecutionStatus::Cancelled);
}

#[test]
fn terminal_status_sticks_after_completion() {
    let mut server = PipelineServer::new(registry());
    let status = server.submit_pipeline(single("hello")).unwrap();
    let pid = status.id;
    let again = status.clone();
    drive(&mut server, status);
    assert_eq!(server.get_pipeline(pid).unwrap().status, ExecutionStatus::Completed);
    drive(&mut server, again);
    assert_eq!(server.get_pipeline(pid).unwrap().status, ExecutionStatus::Completed);
    server.cancel_pipeline(pid).unwrap();
    assert_eq!(server.get_pipeline(pid).unwrap().status, ExecutionStatus::Completed);
    let job = server.get_job(server.get_pipeline(pid).unwrap().jobs[0]).unwrap();
    assert_eq!(job.status, ExecutionStatus::Completed);
}

#[test]
fn jobs_and_steps_keep_declared_order() {
    let mut server = PipelineServer::new(registry());
    let jobs = vec![
        Job { name: "one".to_string(), steps: vec![step("a", "hello"), step("b", "hello"), step("c", "hello")] },
        Job { name: "two".to_string(), steps: vec![step("d", "hello")] },
    ];
    let status = server.submit_pipeline(submission(jobs)).unwrap();
    let p = server.get_pipeline(status.id).unwrap();
    assert_eq!(p.jobs, status.jobs);
    assert!(p.jobs[0] < p.jobs[1]);
    let one = server.get_job(p.jobs[0]).unwrap();
    let names: Vec<String> = one.steps.iter().map(|s| s.config.name.clone()).collect();
    assert_eq!(names, vec!["a".to_string(), "b".to_string(), "c".to_string()]);
    assert_eq!(one.config.name, "one");
    let two = server.get_job(p.jobs[1]).unwrap();
    assert_eq!(two.steps.len(), 1);
    assert_eq!(two.steps[0].config.name, "d");
    assert_eq!(one.current_step, Some(0));
}

#[test]
fn missing_name_argument_fails_the_step() {
    let mut server = PipelineServer::new(registry());
    let mut s = step("greet", "hello");
    s.args.clear();
    let ctx = submission(vec![Job { name: "job".to_string(), steps: vec![s] }]);
    let status = server.submit_pipeline(ctx).unwrap();
    let pid = status.id;
    drive(&mut server, status);
    assert_eq!(server.get_pipeline(pid).unwrap().status, ExecutionStatus::Failed);
    assert_eq!(
        server.store.error_messages(pid),
        vec!["Execution error: missing `name` argument".to_string()]
    );
}

#[test]
fn pipeline_deleted_while_a_step_runs() {
    let mut server = PipelineServer::new(registry());
    let status = server.submit_pipeline(single("hello")).unwrap();
    let pid = status.id;
    let mut run = PipelineRun::new(status);
    let ctx = match run.advance(&mut server.store, 1) {
        EngineAction::Run(ctx) => ctx,
        EngineAction::Finished => panic!("expected a step to run"),
    };
    assert_eq!(server.store.get_step(ctx.status.id).unwrap().status, ExecutionStatus::Running);
    server.delete_pipeline(pid).unwrap();
    run.finish_step(&mut server.store, StepOutcome::Succeeded, &ctx, 2);
    assert!(matches!(run.advance(&mut server.store, 3), EngineAction::Finished));
    assert!(matches!(server.get_pipeline(pid), Err(PapError::NotFound(_))));
    assert_eq!(server.store.error_messages(pid), vec!["job vanished".to_string()]);
}

#[test]
fn unregistered_call_at_run_time_fails_the_step() {
    let mut server = PipelineServer::new(registry());
    let status = server.submit_pipeline(single("hello")).unwrap();
    let pid = status.id;
    let mut bare = PipelineServer::new(StepExecutorRegistry::<Kind>::new());
    std::mem::swap(&mut bare.store, &mut server.store);
    drive(&mut bare, status);
    assert_eq!(bare.get_pipeline(pid).unwrap().status, ExecutionStatus::Failed);
    assert_eq!(bare.store.error_messages(pid), vec!["step executor not found: hello".to_string()]);
}

#[test]
fn finished_run_does_nothing_more() {
    let mut server = PipelineServer::new(registry());
    let jobs = vec![
        Job { name: "first".to_string(), steps: vec![step("explode", "fail")] },
        Job { name: "second".to_string(), steps: vec![step("greet", "hello")] },
    ];
    let status = server.submit_pipeline(submission(jobs)).unwrap();
    let pid = status.id;
    let second = status.jobs[1];
    let mut run = PipelineRun::new(status);
    let mut ctx = match run.advance(&mut server.store, 1) {
        EngineAction::Run(ctx) => ctx,
        EngineAction::Finished => panic!("expected a step to run"),
    };
    ctx.log("about to fail");
    run.finish_step(&mut server.store, StepOutcome::Failed("boom".to_string()), &ctx, 2);
    for _ in 0..3 {
        assert!(matches!(run.advance(&mut server.store, 3), EngineAction::Finished));
    }
    assert_eq!(server.get_job(second).unwrap().status, ExecutionStatus::Pending);
    assert_eq!(server.store.error_messages(pid), vec!["boom".to_string()]);
    assert_eq!(server.get_step_log(ctx.status.id).unwrap(), b"about to fail\n".to_vec());
}

#[test]
fn cancel_after_failure_keeps_failed() {
    let mut server = PipelineServer::new(registry());
    let status = server.submit_pipeline(single("fail")).unwrap();
    let pid = status.id;
    drive(&mut server, status);
    server.cancel_pipeline(pid).unwrap();
    let p = server.get_pipeline(pid).unwrap();
    assert_eq!(p.status, ExecutionStatus::Failed);
    assert_eq!(server.get_job(p.jobs[0]).unwrap().status, ExecutionStatus::Failed);
}

#[test]
fn handed_out_step_sees_the_submitted_files() {
    let mut server = PipelineServer::new(registry());
    let status = server.submit_pipeline(single("hello")).unwrap();
    let mut run = PipelineRun::new(status);
    match run.advance(&mut server.store, 1) {
        EngineAction::Run(ctx) => assert_eq!(ctx.get_file("test.bin"), Some(&vec![0x01, 0x02])),
        EngineAction::Finished => panic!("expected a step to run"),
    }
}
