use std::cell::RefCell;

use pap::config::{ArgType, Config, Job, LoaderConfig, MMIOEntry, Project, Step};
use pap::context::Context;
use pap::error::{ExecutorError, PapError};
use pap::executor::{Executor, ExecutorCommand, Pipeline, SerialExecutor};
use pap::registry::StepExecutorRegistry;
use pap::runtime::StepContext;
use pap::status::{ExecutionStatus, PipelineStatus, StepStatus};
use pap::steps::{get_project, HelloStepExecutor, IcicleFuzzerExecutor, DEFAULT_INPUT_ADDRESS};
use pap::store::Store;
use pap::text::{decimal_text, join, parse_hex_address, starts_with};

fn text(s: &str) -> String {
    s.to_string()
}

fn project(name: &str, arch: &str, loader: Option<LoaderConfig>) -> Project {
    Project { name: text(name), binary: text("test.bin"), arch: text(arch), loader, mmio: vec![] }
}

fn step_with(args: Vec<(&str, ArgType)>, io: Vec<(&str, &str)>) -> Step {
    Step {
        name: text("fuzz"),
        call: text("icicle-fuzzer"),
        args: args.into_iter().map(|(k, v)| (text(k), v)).collect(),
        io: io.into_iter().map(|(k, v)| (text(k), text(v))).collect(),
    }
}

fn context_for(step: Step, projects: Vec<Project>) -> StepContext {
    let config = Config { projects, jobs: vec![] };
    let pipeline = PipelineStatus { id: 1, config, status: ExecutionStatus::Running, jobs: vec![], error: None };
    let status = StepStatus { id: 3, config: step, status: ExecutionStatus::Running, output: None };
    StepContext::new(status, pipeline, vec![(text("test.bin"), vec![1, 2, 3])])
}

fn fuzz_args() -> Vec<(&'static str, ArgType)> {
    vec![
        ("project", ArgType::String(text("testbin"))),
        ("function", ArgType::String(text("0x8074e50"))),
        ("harness", ArgType::String(text("write_reg(\"r0\", input_addr);"))),
    ]
}

fn fuzz_io() -> Vec<(&'static str, &'static str)> {
    vec![("input", "in"), ("output", "corpus"), ("solutions", "crashes")]
}

fn good_loader() -> Option<LoaderConfig> {
    Some(LoaderConfig { base_address: 0x8000000, stack_address: 0x20010000 })
}

#[test]
fn hex_addresses() {
    assert_eq!(parse_hex_address("0x8074e50"), Some(0x8074e50));
    assert_eq!(parse_hex_address("ff"), Some(255));
    assert_eq!(parse_hex_address("0xDEADbeef"), Some(0xdeadbeef));
    assert_eq!(parse_hex_address("0x0x1f"), Some(31));
    assert_eq!(parse_hex_address("+10"), Some(16));
    assert_eq!(parse_hex_address("0xffffffffffffffff"), Some(u64::MAX));
    assert_eq!(parse_hex_address("10000000000000000"), None);
    assert_eq!(parse_hex_address(""), None);
    assert_eq!(parse_hex_address("0x"), None);
    assert_eq!(parse_hex_address("+"), None);
    assert_eq!(parse_hex_address("-1"), None);
    assert_eq!(parse_hex_address("0xg"), None);
    assert_eq!(parse_hex_address("12 "), None);
}

#[test]
fn argument_rendering() {
    assert_eq!(ArgType::Bool(true).render(), "true");
    assert_eq!(ArgType::Bool(false).render(), "false");
    assert_eq!(ArgType::Int(0).render(), "0");
    assert_eq!(ArgType::Int(1234).render(), "1234");
    assert_eq!(ArgType::Int(-42).render(), "-42");
    assert_eq!(ArgType::Int(i64::MIN).render(), "-9223372036854775808");
    assert_eq!(ArgType::Int(i64::MAX).render(), "9223372036854775807");
    assert_eq!(ArgType::String(text("world")).render(), "world");
    assert_eq!(decimal_text(10), "10");
}

#[test]
fn text_helpers() {
    assert_eq!(join("Hello, ", "world"), "Hello, world");
    assert!(starts_with("thumbv7m-none-eabi", "thumb"));
    assert!(starts_with("arm", "arm"));
    assert!(!starts_with("ar", "arm"));
    assert!(!starts_with("x86_64", "arm"));
}

#[test]
fn status_names() {
    assert_eq!(ExecutionStatus::Pending.name(), "Pending");
    assert_eq!(ExecutionStatus::Cancelled.name(), "Cancelled");
    assert!(ExecutionStatus::Failed.is_terminal());
    assert!(!ExecutionStatus::Running.is_terminal());
}

#[test]
fn error_messages() {
    assert_eq!(PapError::NotFound(text("Job 4")).message(), "Resource not found: Job 4");
    assert_eq!(PapError::Database(text("x")).message(), "Database error: x");
    assert_eq!(PapError::Configuration(text("x")).message(), "Invalid configuration: x");
    assert_eq!(PapError::Execution(text("x")).message(), "Execution error: x");
    assert_eq!(PapError::Internal(text("x")).message(), "Internal error: x");
    assert_eq!(ExecutorError::CommandNotFound(text("go")).message(), "Executor does not have command: go");
}

#[test]
fn step_runtime_lookups() {
    let step = step_with(
        vec![("flag", ArgType::Bool(true)), ("count", ArgType::Int(-3)), ("name", ArgType::String(text("a")))],
        vec![("output", "ns")],
    );
    let mut ctx = context_for(step, vec![]);
    assert!(ctx.has_arg("flag"));
    assert!(!ctx.has_arg("missing"));
    assert_eq!(ctx.get_arg("flag"), Some(text("true")));
    assert_eq!(ctx.get_arg("count"), Some(text("-3")));
    assert_eq!(ctx.get_arg("name"), Some(text("a")));
    assert_eq!(ctx.get_arg("missing"), None);
    assert!(ctx.has_io("output"));
    assert_eq!(ctx.get_io("output"), Some(text("ns")));
    assert_eq!(ctx.get_io("input"), None);
    assert_eq!(ctx.get_file("test.bin"), Some(&vec![1, 2, 3]));
    assert_eq!(ctx.get_file("other.bin"), None);
    ctx.log("one");
    ctx.log("two");
    assert_eq!(ctx.get_log(), b"one\ntwo\n".to_vec());
}

#[test]
fn hello_step() {
    let mut ctx = context_for(step_with(vec![("name", ArgType::String(text("world")))], vec![]), vec![]);
    assert_eq!(HelloStepExecutor.name(), "hello");
    assert!(HelloStepExecutor.execute(&mut ctx).is_ok());
    assert_eq!(ctx.get_log(), b"Hello, world!\n".to_vec());
    let mut bare = context_for(step_with(vec![], vec![]), vec![]);
    assert!(matches!(HelloStepExecutor.execute(&mut bare), Err(PapError::Execution(_))));
    assert_eq!(bare.get_log(), Vec::<u8>::new());
}

#[test]
fn fuzzer_check_accepts_a_ready_step() {
    let ctx = context_for(step_with(fuzz_args(), fuzz_io()), vec![project("testbin", "thumbv7m-none-eabi", good_loader())]);
    let t = IcicleFuzzerExecutor.check(&ctx).unwrap();
    assert_eq!(IcicleFuzzerExecutor.name(), "icicle-fuzzer");
    assert_eq!(t.project.name, "testbin");
    assert_eq!(t.function_address, 0x8074e50);
    assert_eq!(t.input_address, DEFAULT_INPUT_ADDRESS);
    assert_eq!(t.input_address, 0x4100_0000);
    assert_eq!(t.output, "corpus");
    assert_eq!(t.solutions, "crashes");
    let mut args = fuzz_args();
    args.push(("input_addr", ArgType::String(text("0x2000"))));
    let ctx = context_for(step_with(args, fuzz_io()), vec![project("testbin", "armv7", good_loader())]);
    assert_eq!(IcicleFuzzerExecutor.check(&ctx).unwrap().input_address, 0x2000);
}

#[test]
fn fuzzer_check_rejects() {
    let ready = project("testbin", "thumbv7m-none-eabi", good_loader());
    let cases: Vec<(Vec<(&str, ArgType)>, Vec<(&str, &str)>, Project)> = vec![
        (fuzz_args()[1..].to_vec(), fuzz_io(), ready.clone()),
        (fuzz_args(), fuzz_io(), project("other", "thumbv7m", good_loader())),
        (fuzz_args(), fuzz_io(), Project { binary: text(""), ..ready.clone() }),
        (fuzz_args(), fuzz_io(), project("testbin", "x86_64-linux", good_loader())),
        (fuzz_args(), fuzz_io(), project("testbin", "thumbv7m", None)),
        (fuzz_args(), fuzz_io(), project("testbin", "thumbv7m", Some(LoaderConfig { base_address: 0, stack_address: 1 }))),
        (fuzz_args(), fuzz_io(), project("testbin", "thumbv7m", Some(LoaderConfig { base_address: 1, stack_address: 0 }))),
        (vec![fuzz_args()[0].clone(), ("function", ArgType::String(text("main"))), fuzz_args()[2].clone()], fuzz_io(), ready.clone()),
        (fuzz_args()[..2].to_vec(), fuzz_io(), ready.clone()),
        (fuzz_args(), fuzz_io()[1..].to_vec(), ready.clone()),
        (fuzz_args(), vec![("input", "in"), ("solutions", "s")], ready.clone()),
        (fuzz_args(), fuzz_io()[..2].to_vec(), ready.clone()),
    ];
    for (args, io, p) in cases {
        let ctx = context_for(step_with(args, io), vec![p]);
        assert!(matches!(IcicleFuzzerExecutor.check(&ctx), Err(PapError::Execution(_))));
    }
    let mut args = fuzz_args();
    args.push(("input_addr", ArgType::String(text("nowhere"))));
    let ctx = context_for(step_with(args, fuzz_io()), vec![ready]);
    assert!(matches!(IcicleFuzzerExecutor.check(&ctx), Err(PapError::Execution(_))));
}

#[test]
fn project_lookup() {
    let ps = vec![project("a", "arm", None), project("b", "thumb", None), project("b", "arm", None)];
    let ctx = context_for(step_with(vec![("project", ArgType::String(text("b")))], vec![]), ps.clone());
    assert_eq!(get_project(&ctx).unwrap().arch, "thumb");
    let ctx = context_for(step_with(vec![("project", ArgType::String(text("c")))], vec![]), ps.clone());
    assert!(matches!(get_project(&ctx), Err(PapError::Execution(_))));
    let ctx = context_for(step_with(vec![], vec![]), ps);
    assert!(matches!(get_project(&ctx), Err(PapError::Execution(_))));
}

#[test]
fn builtin_registry_and_missing_executor() {
    let r = StepExecutorRegistry::builtin_executors(1u8, 2u8);
    assert_eq!(r.get("hello"), Some(&1));
    assert_eq!(r.get("icicle-fuzzer"), Some(&2));
    match pap::engine::StepOutcome::missing_executor("nope") {
        pap::engine::StepOutcome::Failed(m) => assert_eq!(m, "step executor not found: nope"),
        pap::engine::StepOutcome::Succeeded => panic!("expected a failure"),
    }
}

#[test]
fn validation_names_the_first_missing_call() {
    let mut r: StepExecutorRegistry<u8> = StepExecutorRegistry::new();
    r.register(text("ok"), 0);
    let s = |call: &str| Step { name: text("s"), call: text(call), args: vec![], io: vec![] };
    let config = Config {
        projects: vec![],
        jobs: vec![
            Job { name: text("j1"), steps: vec![s("ok"), s("second")] },
            Job { name: text("j2"), steps: vec![s("first")] },
        ],
    };
    let ctx = Context::build_with_config(config, vec![]).unwrap();
    match r.validate(&ctx) {
        Err(PapError::Configuration(m)) => assert_eq!(m, "step executor not found: second"),
        other => panic!("unexpected: {:?}", other),
    }
}

#[test]
fn registry_keeps_latest() {
    let mut r: StepExecutorRegistry<u8> = StepExecutorRegistry::new();
    assert_eq!(r.get("hello"), None);
    r.register(text("hello"), 1);
    r.register(text("other"), 2);
    r.register(text("hello"), 3);
    assert_eq!(r.get("hello"), Some(&3));
    assert_eq!(r.get("other"), Some(&2));
    assert!(r.contains("other"));
    assert!(!r.contains("nope"));
}

#[test]
fn context_needs_every_binary() {
    let config = Config { projects: vec![project("a", "arm", None)], jobs: vec![] };
    assert_eq!(Context::binaries(&config), vec![text("test.bin")]);
    match Context::build_with_config(config.clone(), vec![]) {
        Err(PapError::Configuration(m)) => assert_eq!(m, "missing file for binary: test.bin"),
        other => panic!("unexpected: {:?}", other.map(|_| ())),
    }
    match Context::build_with_config(config.clone(), vec![(text("test.bin"), vec![9]), (text("extra.bin"), vec![])]) {
        Err(PapError::Configuration(m)) => assert_eq!(m, "file named by no project: extra.bin"),
        other => panic!("unexpected: {:?}", other.map(|_| ())),
    }
    let ctx = Context::build_with_config(config, vec![(text("test.bin"), vec![9])]).unwrap();
    assert_eq!(ctx.get_file("test.bin"), Some(&vec![9]));
    assert_eq!(ctx.config().projects.len(), 1);
    assert_eq!(ctx.files().len(), 1);
}

fn two_job_context() -> Context {
    let s = |n: &str| Step { name: text(n), call: text("hello"), args: vec![], io: vec![] };
    let config = Config {
        projects: vec![Project {
            name: text("p"),
            binary: text("b"),
            arch: text("arm"),
            loader: None,
            mmio: vec![MMIOEntry { address: 0x40000000, size: 1, handler: text("zero") }],
        }],
        jobs: vec![Job { name: text("j1"), steps: vec![s("a"), s("b")] }, Job { name: text("j2"), steps: vec![s("c")] }],
    };
    Context::build_with_config(config, vec![(text("b"), vec![])]).unwrap()
}

#[test]
fn store_ids_and_lookups() {
    let mut store = Store::new();
    let first = store.insert_pipeline(two_job_context()).unwrap();
    assert_eq!(first.id, 1);
    assert_eq!(first.jobs, vec![1, 2]);
    assert_eq!(first.status, ExecutionStatus::Running);
    assert_eq!(store.get_pipeline(1).unwrap().status, ExecutionStatus::Pending);
    let second = store.insert_pipeline(two_job_context()).unwrap();
    assert_eq!(second.id, 2);
    assert_eq!(second.jobs, vec![3, 4]);
    assert_eq!(store.list_pipelines(), vec![1, 2]);
    assert_eq!(store.list_jobs(), vec![1, 2, 3, 4]);
    let j = store.get_job(3).unwrap();
    let ids: Vec<u32> = j.steps.iter().map(|s| s.id).collect();
    assert_eq!(ids, vec![4, 5]);
    assert_eq!(store.get_step(6).unwrap().config.name, "c");
    assert!(store.get_step(6).unwrap().output.is_none());
    assert!(matches!(store.get_step(99), Err(PapError::NotFound(_))));
    assert!(matches!(store.get_job(99), Err(PapError::NotFound(_))));
    assert_eq!(store.get_context(1).unwrap().config.projects[0].mmio[0].address, 0x40000000);
    assert_eq!(store.pipeline_status(2).unwrap(), ExecutionStatus::Pending);
    assert!(matches!(store.job_status(42), Err(PapError::NotFound(_))));
}

#[test]
fn store_cancellation_queries() {
    let mut store = Store::new();
    store.insert_pipeline(two_job_context()).unwrap();
    assert_eq!(store.is_step_cancelled(1).unwrap(), false);
    store.cancel_job(1);
    assert_eq!(store.job_status(1).unwrap(), ExecutionStatus::Cancelled);
    assert_eq!(store.get_step(1).unwrap().status, ExecutionStatus::Cancelled);
    assert_eq!(store.get_step(3).unwrap().status, ExecutionStatus::Pending);
    assert_eq!(store.is_step_cancelled(2).unwrap(), true);
    assert_eq!(store.is_step_cancelled(3).unwrap(), false);
    store.set_pipeline_status(1, ExecutionStatus::Cancelled);
    assert_eq!(store.is_step_cancelled(3).unwrap(), true);
    assert!(matches!(store.is_step_cancelled(77), Err(PapError::NotFound(_))));
    store.cancel_pipeline(1);
    assert_eq!(store.job_status(2).unwrap(), ExecutionStatus::Cancelled);
    assert_eq!(store.get_step(3).unwrap().status, ExecutionStatus::Cancelled);
}

#[test]
fn store_status_writes() {
    let mut store = Store::new();
    store.insert_pipeline(two_job_context()).unwrap();
    store.set_job_status(2, ExecutionStatus::Running);
    store.set_step_status(3, ExecutionStatus::Completed);
    assert_eq!(store.job_status(2).unwrap(), ExecutionStatus::Running);
    store.advance_step_status(3, ExecutionStatus::Failed);
    assert_eq!(store.get_step(3).unwrap().status, ExecutionStatus::Completed);
    store.advance_job_status(2, ExecutionStatus::Completed);
    assert_eq!(store.job_status(2).unwrap(), ExecutionStatus::Completed);
    store.advance_pipeline_status(1, ExecutionStatus::Running);
    store.advance_pipeline_status(1, ExecutionStatus::Cancelled);
    store.advance_pipeline_status(1, ExecutionStatus::Completed);
    assert_eq!(store.pipeline_status(1).unwrap(), ExecutionStatus::Cancelled);
    store.set_step_log(1, &b"log".to_vec());
    assert_eq!(store.get_step_log(1).unwrap(), b"log".to_vec());
    assert_eq!(store.get_step_log(2).unwrap(), Vec::<u8>::new());
}

#[test]
fn store_error_log() {
    let mut store = Store::new();
    store.insert_pipeline(two_job_context()).unwrap();
    store.record_error(1, text("first"), 10).unwrap();
    assert_eq!(store.pipeline_status(1).unwrap(), ExecutionStatus::Failed);
    store.record_error(1, text("second"), 11).unwrap();
    store.record_error(5, text("elsewhere"), 12).unwrap();
    assert_eq!(store.error_messages(1), vec![text("first"), text("second")]);
    assert_eq!(store.error_messages(5), vec![text("elsewhere")]);
    let mut done = Store::new();
    done.insert_pipeline(two_job_context()).unwrap();
    done.set_pipeline_status(1, ExecutionStatus::Cancelled);
    done.record_error(1, text("late"), 1).unwrap();
    assert_eq!(done.pipeline_status(1).unwrap(), ExecutionStatus::Cancelled);
}

#[test]
fn store_delete_keeps_other_pipelines() {
    let mut store = Store::new();
    store.insert_pipeline(two_job_context()).unwrap();
    store.insert_pipeline(two_job_context()).unwrap();
    store.put_object(text("ns"), vec![1], vec![2]);
    store.delete_pipeline(1);
    assert_eq!(store.list_pipelines(), vec![2]);
    assert_eq!(store.list_jobs(), vec![3, 4]);
    assert!(matches!(store.get_step(1), Err(PapError::NotFound(_))));
    assert_eq!(store.get_step(4).unwrap().config.name, "a");
    assert_eq!(store.get_object("ns", &vec![1]).unwrap(), vec![2]);
    let third = store.insert_pipeline(two_job_context()).unwrap();
    assert_eq!(third.id, 3);
}

struct Recorder<'a> {
    seen: &'a RefCell<Vec<String>>,
    tag: &'static str,
}

impl ExecutorCommand for Recorder<'_> {
    fn execute(&self, job: &str, _args: &Vec<(String, ArgType)>) {
        self.seen.borrow_mut().push(format!("{}:{}", job, self.tag));
    }
}

#[test]
fn serial_executor_runs_in_order() {
    let seen = RefCell::new(Vec::new());
    let mut ex = SerialExecutor::new();
    ex.add_command(text("hello"), Recorder { seen: &seen, tag: "hello" });
    ex.add_command(text("other"), Recorder { seen: &seen, tag: "other" });
    let s = |call: &str| Step { name: text("s"), call: text(call), args: vec![], io: vec![] };
    let config = Config {
        projects: vec![project("p", "arm", None)],
        jobs: vec![
            Job { name: text("j1"), steps: vec![s("hello"), s("other")] },
            Job { name: text("j2"), steps: vec![s("other")] },
        ],
    };
    let pipeline = Pipeline::from_config(&config);
    assert_eq!(pipeline.projects.len(), 1);
    assert!(ex.has_command("hello"));
    assert!(!ex.has_command("missing"));
    assert!(ex.can_run_pipeline(&pipeline).is_ok());
    let _ = ex.run_pipeline(&pipeline);
    assert_eq!(*seen.borrow(), vec![text("j1:hello"), text("j1:other"), text("j2:other")]);
    let bad = Config {
        projects: vec![],
        jobs: vec![
            Job { name: text("j"), steps: vec![s("hello"), s("missing")] },
            Job { name: text("k"), steps: vec![s("later")] },
        ],
    };
    match ex.can_run_pipeline(&Pipeline::from_config(&bad)) {
        Err(ExecutorError::CommandNotFound(c)) => assert_eq!(c, "missing"),
        Ok(()) => panic!("expected an error"),
    }
}
