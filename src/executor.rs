use vstd::prelude::*;

use crate::config::{clone_args, find_key, first_key_at, has_key, ArgType, Config, LoaderConfig};
use crate::runtime::lemma_first_key_unique;
use crate::error::ExecutorError;

verus! {

/// A step as the serial executor runs it.
pub struct Step {
    pub name: String,
    pub call: String,
    pub args: Vec<(String, ArgType)>,
}

pub struct Job {
    pub name: String,
    pub steps: Vec<Step>,
}

pub struct Project {
    pub name: String,
    pub binary: String,
    pub arch: String,
    pub loader: Option<LoaderConfig>,
}

/// A pipeline as the serial executor runs it.
pub struct Pipeline {
    pub projects: Vec<Project>,
    pub jobs: Vec<Job>,
}

impl Step {
    pub fn from_config(step: &crate::config::Step) -> (r: Step)
        ensures
            r.name@ == step.name@,
            r.call@ == step.call@,
            r.args@ == step.args@,
    {
        Step { name: step.name.clone(), call: step.call.clone(), args: clone_args(&step.args) }
    }
}

impl Job {
    pub fn from_config(job: &crate::config::Job) -> (r: Job)
        ensures
            r.name@ == job.name@,
            r.steps@.len() == job.steps@.len(),
            forall|i: int| 0 <= i < r.steps@.len() ==> (#[trigger] r.steps@[i]).call@ == job.steps@[i].call@
                && r.steps@[i].name@ == job.steps@[i].name@ && r.steps@[i].args@ == job.steps@[i].args@,
    {
        let mut steps: Vec<Step> = Vec::new();
        let mut i: usize = 0;
        while i < job.steps.len()
            invariant
                0 <= i <= job.steps@.len(),
                steps@.len() == i,
                forall|k: int| 0 <= k < i ==> (#[trigger] steps@[k]).call@ == job.steps@[k].call@
                    && steps@[k].name@ == job.steps@[k].name@ && steps@[k].args@ == job.steps@[k].args@,
            decreases job.steps@.len() - i,
        {
            steps.push(Step::from_config(&job.steps[i]));
            i = i + 1;
        }
        Job { name: job.name.clone(), steps }
    }
}

impl Project {
    pub fn from_config(project: &crate::config::Project) -> (r: Project)
        ensures
            r.name@ == project.name@,
            r.binary@ == project.binary@,
            r.arch@ == project.arch@,
            r.loader == project.loader,
    {
        Project {
            name: project.name.clone(),
            binary: project.binary.clone(),
            arch: project.arch.clone(),
            loader: project.loader,
        }
    }
}

impl Pipeline {
    pub fn from_config(config: &Config) -> (r: Pipeline)
        ensures
            r.jobs@.len() == config.jobs@.len(),
            forall|j: int| 0 <= j < r.jobs@.len() ==> (#[trigger] r.jobs@[j]).name@ == config.jobs@[j].name@
                && r.jobs@[j].steps@.len() == config.jobs@[j].steps@.len()
                && forall|i: int| 0 <= i < r.jobs@[j].steps@.len() ==> (#[trigger] r.jobs@[j].steps@[i]).call@
                    == config.jobs@[j].steps@[i].call@,
            r.projects@.len() == config.projects@.len(),
    {
        let mut projects: Vec<Project> = Vec::new();
        let mut p: usize = 0;
        while p < config.projects.len()
            invariant
                0 <= p <= config.projects@.len(),
                projects@.len() == p,
            decreases config.projects@.len() - p,
        {
            projects.push(Project::from_config(&config.projects[p]));
            p = p + 1;
        }
        let mut jobs: Vec<Job> = Vec::new();
        let mut j: usize = 0;
        while j < config.jobs.len()
            invariant
                0 <= j <= config.jobs@.len(),
                jobs@.len() == j,
                forall|k: int| 0 <= k < j ==> (#[trigger] jobs@[k]).name@ == config.jobs@[k].name@
                    && jobs@[k].steps@.len() == config.jobs@[k].steps@.len()
                    && forall|i: int| 0 <= i < jobs@[k].steps@.len() ==> (#[trigger] jobs@[k].steps@[i]).call@
                        == config.jobs@[k].steps@[i].call@,
            decreases config.jobs@.len() - j,
        {
            jobs.push(Job::from_config(&config.jobs[j]));
            j = j + 1;
        }
        Pipeline { projects, jobs }
    }
}

/// Every step of every job of `p` satisfies `has`.
pub open spec fn all_calls(p: &Pipeline, has: spec_fn(Seq<char>) -> bool) -> bool {
    forall|j: int, i: int|
        0 <= j < p.jobs@.len() && 0 <= i < p.jobs@[j].steps@.len() ==> has(#[trigger] p.jobs@[j].steps@[i].call@)
}

/// Step `i` of job `j` is the first step, in job-then-step order, whose call
/// fails `has`.
pub open spec fn first_missing_at(p: &Pipeline, has: spec_fn(Seq<char>) -> bool, j: int, i: int) -> bool {
    &&& 0 <= j < p.jobs@.len()
    &&& 0 <= i < p.jobs@[j].steps@.len()
    &&& has(p.jobs@[j].steps@[i].call@) == false
    &&& forall|a: int, b: int|
        0 <= a < j && 0 <= b < p.jobs@[a].steps@.len() ==> has(#[trigger] p.jobs@[a].steps@[b].call@)
    &&& forall|b: int| 0 <= b < i ==> has(#[trigger] p.jobs@[j].steps@[b].call@)
}

/// Job `j` is the first job of `p` named `name`.
pub open spec fn first_job_named(p: &Pipeline, name: Seq<char>, j: int) -> bool {
    &&& 0 <= j < p.jobs@.len()
    &&& p.jobs@[j].name@ == name
    &&& forall|k: int| 0 <= k < j ==> (#[trigger] p.jobs@[k]).name@ != name
}

/// The dispatches for job `j`: for each of its steps in order, the job, the
/// step, and the position of the first command named by the step's call.
pub open spec fn job_dispatch<C>(p: &Pipeline, cmds: Seq<(String, C)>, j: int) -> Seq<(int, int, int)> {
    Seq::new(
        p.jobs@[j].steps@.len(),
        |i: int| (j, i, choose|c: int| first_key_at(cmds, p.jobs@[j].steps@[i].call@, c)),
    )
}

/// The dispatches for the first `n` jobs of `p`, in declared order, each
/// job run as the first job with its name.
pub open spec fn pipeline_dispatch<C>(p: &Pipeline, cmds: Seq<(String, C)>, n: int) -> Seq<(int, int, int)>
    decreases n,
{
    if n <= 0 {
        Seq::empty()
    } else {
        pipeline_dispatch(p, cmds, n - 1) + job_dispatch(
            p,
            cmds,
            choose|j: int| #[trigger] first_job_named(p, p.jobs@[n - 1].name@, j),
        )
    }
}

proof fn lemma_first_job_unique(p: &Pipeline, name: Seq<char>, a: int, b: int)
    requires
        first_job_named(p, name, a),
        first_job_named(p, name, b),
    ensures
        a == b,
{
    if a < b {
        assert(p.jobs@[a].name@ != name);
    } else if b < a {
        assert(p.jobs@[b].name@ != name);
    }
}

/// Runs the jobs of a pipeline with the commands it has.
pub trait Executor {
    /// Whether the executor has a command named `name`.
    spec fn has_command_spec(&self, name: Seq<char>) -> bool;

    fn has_command(&self, name: &str) -> (r: bool)
        ensures
            r == self.has_command_spec(name@),
    ;

    /// Checks that every step of `pipeline` calls a command the executor has.
    fn can_run_pipeline(&self, pipeline: &Pipeline) -> (r: Result<(), ExecutorError>)
        ensures
            r is Ok <==> all_calls(pipeline, |n: Seq<char>| self.has_command_spec(n)),
            match r {
                Ok(_) => true,
                Err(ExecutorError::CommandNotFound(c)) => exists|j: int, i: int|
                    first_missing_at(pipeline, |n: Seq<char>| self.has_command_spec(n), j, i)
                        && c@ == pipeline.jobs@[j].steps@[i].call@,
            },
    ;

    /// Runs the steps of the first job named `job`, in order.
    fn run_job(&self, pipeline: &Pipeline, job: &str)
        requires
            exists|j: int| 0 <= j < pipeline.jobs@.len() && (#[trigger] pipeline.jobs@[j]).name@ == job@,
            all_calls(pipeline, |n: Seq<char>| self.has_command_spec(n)),
    ;
}

/// A command that the serial executor can run for a step.
pub trait ExecutorCommand {
    fn execute(&self, job: &str, args: &Vec<(String, ArgType)>);
}

/// Runs jobs one after the other, and the steps of a job in order.
pub struct SerialExecutor<C> {
    commands: Vec<(String, C)>,
}

impl<C> View for SerialExecutor<C> {
    type V = Seq<(String, C)>;

    closed spec fn view(&self) -> Seq<(String, C)> {
        self.commands@
    }
}

impl<C: ExecutorCommand> SerialExecutor<C> {
    /// An executor without commands.
    pub fn new() -> (r: SerialExecutor<C>)
        ensures
            r@.len() == 0,
    {
        SerialExecutor { commands: Vec::new() }
    }

    /// Adds `command` under `name`.
    pub fn add_command(&mut self, name: String, command: C)
        ensures
            final(self)@ == old(self)@.push((name, command)),
    {
        self.commands.push((name, command));
    }

    /// Runs every job of `pipeline`, in declared order, each as the first job
    /// with its name. Hands back the dispatches made: job, step and command
    /// position, one per step, in the order the commands were run.
    pub fn run_pipeline(&self, pipeline: &Pipeline) -> (r: Ghost<Seq<(int, int, int)>>)
        requires
            all_calls(pipeline, |n: Seq<char>| self.has_command_spec(n)),
        ensures
            r@ == pipeline_dispatch(pipeline, self@, pipeline.jobs@.len() as int),
    {
        let ghost mut done: Seq<(int, int, int)> = Seq::empty();
        let mut j: usize = 0;
        while j < pipeline.jobs.len()
            invariant
                0 <= j <= pipeline.jobs@.len(),
                all_calls(pipeline, |n: Seq<char>| self.has_command_spec(n)),
                done == pipeline_dispatch(pipeline, self@, j as int),
            decreases pipeline.jobs@.len() - j,
        {
            let d = self.dispatch_job(pipeline, pipeline.jobs[j].name.as_str());
            proof {
                let k = choose|k: int| first_job_named(pipeline, pipeline.jobs@[j as int].name@, k) && d@ == job_dispatch(pipeline, self@, k);
                let c = choose|c: int| #[trigger] first_job_named(pipeline, pipeline.jobs@[j as int].name@, c);
                lemma_first_job_unique(pipeline, pipeline.jobs@[j as int].name@, k, c);
                done = done + d@;
            }
            j = j + 1;
        }
        Ghost(done)
    }

    /// Runs the steps of the first job named `job`, in order.
    fn dispatch_job(&self, pipeline: &Pipeline, job: &str) -> (r: Ghost<Seq<(int, int, int)>>)
        requires
            exists|j: int| 0 <= j < pipeline.jobs@.len() && (#[trigger] pipeline.jobs@[j]).name@ == job@,
            all_calls(pipeline, |n: Seq<char>| self.has_command_spec(n)),
        ensures
            exists|j: int| first_job_named(pipeline, job@, j) && r@ == job_dispatch(pipeline, self@, j),
    {
        let name = job.to_owned();
        let mut j: usize = 0;
        while j < pipeline.jobs.len()
            invariant
                0 <= j <= pipeline.jobs@.len(),
                name@ == job@,
                all_calls(pipeline, |n: Seq<char>| self.has_command_spec(n)),
                exists|k: int| 0 <= k < pipeline.jobs@.len() && (#[trigger] pipeline.jobs@[k]).name@ == job@,
                forall|k: int| 0 <= k < j ==> (#[trigger] pipeline.jobs@[k]).name@ != job@,
            decreases pipeline.jobs@.len() - j,
        {
            if pipeline.jobs[j].name == name {
                let steps = &pipeline.jobs[j].steps;
                let ghost mut done: Seq<(int, int, int)> = Seq::empty();
                let mut i: usize = 0;
                while i < steps.len()
                    invariant
                        0 <= i <= steps@.len(),
                        0 <= j < pipeline.jobs@.len(),
                        *steps == pipeline.jobs@[j as int].steps,
                        all_calls(pipeline, |n: Seq<char>| self.has_command_spec(n)),
                        done == job_dispatch(pipeline, self@, j as int).take(i as int),
                    decreases steps@.len() - i,
                {
                    assert(has_key(self@, pipeline.jobs@[j as int].steps@[i as int].call@));
                    match find_key(&self.commands, steps[i].call.as_str()) {
                        Some(c) => {
                            self.commands[c].1.execute(job, &steps[i].args);
                            proof {
                                let call = pipeline.jobs@[j as int].steps@[i as int].call@;
                                let e = choose|e: int| first_key_at(self@, call, e);
                                lemma_first_key_unique(self@, call, c as int, e);
                                done = done.push((j as int, i as int, c as int));
                                assert(done =~= job_dispatch(pipeline, self@, j as int).take(i + 1));
                            }
                        },
                        None => {},
                    }
                    i = i + 1;
                }
                assert(done =~= job_dispatch(pipeline, self@, j as int));
                assert(first_job_named(pipeline, job@, j as int));
                return Ghost(done);
            }
            j = j + 1;
        }
        Ghost(Seq::empty())
    }
}

impl<C: ExecutorCommand> Executor for SerialExecutor<C> {
    open spec fn has_command_spec(&self, name: Seq<char>) -> bool {
        has_key(self@, name)
    }

    fn has_command(&self, name: &str) -> (r: bool) {
        find_key(&self.commands, name).is_some()
    }

    fn can_run_pipeline(&self, pipeline: &Pipeline) -> (r: Result<(), ExecutorError>) {
        let mut j: usize = 0;
        while j < pipeline.jobs.len()
            invariant
                0 <= j <= pipeline.jobs@.len(),
                forall|a: int, b: int|
                    0 <= a < j && 0 <= b < pipeline.jobs@[a].steps@.len() ==> has_key(
                        self@,
                        #[trigger] pipeline.jobs@[a].steps@[b].call@,
                    ),
            decreases pipeline.jobs@.len() - j,
        {
            let steps = &pipeline.jobs[j].steps;
            let mut i: usize = 0;
            while i < steps.len()
                invariant
                    0 <= i <= steps@.len(),
                    0 <= j < pipeline.jobs@.len(),
                    *steps == pipeline.jobs@[j as int].steps,
                    forall|a: int, b: int|
                        0 <= a < j && 0 <= b < pipeline.jobs@[a].steps@.len() ==> has_key(
                            self@,
                            #[trigger] pipeline.jobs@[a].steps@[b].call@,
                        ),
                    forall|b: int| 0 <= b < i ==> has_key(self@, #[trigger] pipeline.jobs@[j as int].steps@[b].call@),
                decreases steps@.len() - i,
            {
                if find_key(&self.commands, steps[i].call.as_str()).is_none() {
                    let c = steps[i].call.clone();
                    assert(first_missing_at(pipeline, |n: Seq<char>| self.has_command_spec(n), j as int, i as int));
                    return Err(ExecutorError::CommandNotFound(c));
                }
                i = i + 1;
            }
            j = j + 1;
        }
        Ok(())
    }

    fn run_job(&self, pipeline: &Pipeline, job: &str) {
        let _ = self.dispatch_job(pipeline, job);
    }
}

} // verus!
