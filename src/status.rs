use vstd::prelude::*;

use crate::config::{Config, ConfigView, Job, JobView, Step, StepView};

verus! {

/// Where a pipeline, job or step stands.
#[derive(Clone, Copy, Debug, PartialEq, Eq, Structural)]
pub enum ExecutionStatus {
    Pending,
    Running,
    Completed,
    Failed,
    Cancelled,
}

impl ExecutionStatus {
    /// `Completed`, `Failed` and `Cancelled` end a life cycle.
    pub open spec fn spec_is_terminal(&self) -> bool {
        *self is Completed || *self is Failed || *self is Cancelled
    }

    #[verifier::when_used_as_spec(spec_is_terminal)]
    pub fn is_terminal(&self) -> (r: bool)
        ensures
            r == self.spec_is_terminal(),
    {
        match self {
            ExecutionStatus::Completed | ExecutionStatus::Failed | ExecutionStatus::Cancelled => true,
            _ => false,
        }
    }

    /// The canonical display name, as stored and shown.
    pub fn name(&self) -> (r: &'static str)
        ensures
            r@ == status_name(*self),
    {
        match self {
            ExecutionStatus::Pending => "Pending",
            ExecutionStatus::Running => "Running",
            ExecutionStatus::Completed => "Completed",
            ExecutionStatus::Failed => "Failed",
            ExecutionStatus::Cancelled => "Cancelled",
        }
    }
}

impl ExecutionStatus {
    /// The colour a summary shows the status in.
    pub fn color_name(&self) -> (r: &'static str)
        ensures
            r@ == match *self {
                ExecutionStatus::Completed => "green"@,
                ExecutionStatus::Failed => "red"@,
                ExecutionStatus::Cancelled => "yellow"@,
                _ => "blue"@,
            },
    {
        match self {
            ExecutionStatus::Completed => "green",
            ExecutionStatus::Failed => "red",
            ExecutionStatus::Cancelled => "yellow",
            _ => "blue",
        }
    }
}

pub open spec fn status_name(s: ExecutionStatus) -> Seq<char> {
    match s {
        ExecutionStatus::Pending => "Pending"@,
        ExecutionStatus::Running => "Running"@,
        ExecutionStatus::Completed => "Completed"@,
        ExecutionStatus::Failed => "Failed"@,
        ExecutionStatus::Cancelled => "Cancelled"@,
    }
}

/// A step as reported to clients: its config, status and persisted log.
#[derive(Clone, Debug)]
pub struct StepStatus {
    pub id: u32,
    pub config: Step,
    pub status: ExecutionStatus,
    pub output: Option<Vec<u8>>,
}

pub ghost struct StepStatusView {
    pub id: u32,
    pub config: StepView,
    pub status: ExecutionStatus,
    pub output: Option<Seq<u8>>,
}

pub open spec fn bytes_view(o: Option<Vec<u8>>) -> Option<Seq<u8>> {
    match o {
        Some(v) => Some(v@),
        None => None,
    }
}

impl View for StepStatus {
    type V = StepStatusView;

    open spec fn view(&self) -> StepStatusView {
        StepStatusView {
            id: self.id,
            config: self.config@,
            status: self.status,
            output: bytes_view(self.output),
        }
    }
}

pub(crate) fn clone_bytes(v: &Vec<u8>) -> (r: Vec<u8>)
    ensures
        r@ == v@,
{
    let r = v.clone();
    assert(r@ =~= v@);
    r
}

impl StepStatus {
    pub fn deep_clone(&self) -> (r: StepStatus)
        ensures
            r@ == self@,
    {
        let output = match &self.output {
            Some(v) => Some(clone_bytes(v)),
            None => None,
        };
        StepStatus { id: self.id, config: self.config.deep_clone(), status: self.status, output }
    }
}

/// A job as reported to clients, with its steps in declared order.
#[derive(Clone, Debug)]
pub struct JobStatus {
    pub id: u32,
    pub config: Job,
    pub steps: Vec<StepStatus>,
    pub status: ExecutionStatus,
    pub current_step: Option<u32>,
}

pub ghost struct JobStatusView {
    pub id: u32,
    pub config: JobView,
    pub steps: Seq<StepStatusView>,
    pub status: ExecutionStatus,
    pub current_step: Option<u32>,
}

impl View for JobStatus {
    type V = JobStatusView;

    open spec fn view(&self) -> JobStatusView {
        JobStatusView {
            id: self.id,
            config: self.config@,
            steps: self.steps@.map_values(|s: StepStatus| s@),
            status: self.status,
            current_step: self.current_step,
        }
    }
}

/// A pipeline as reported to clients, with its job ids in declared order.
#[derive(Clone, Debug)]
pub struct PipelineStatus {
    pub id: u32,
    pub config: Config,
    pub status: ExecutionStatus,
    pub jobs: Vec<u32>,
    pub error: Option<String>,
}

pub ghost struct PipelineStatusView {
    pub id: u32,
    pub config: ConfigView,
    pub status: ExecutionStatus,
    pub jobs: Seq<u32>,
    pub error: Option<Seq<char>>,
}

impl View for PipelineStatus {
    type V = PipelineStatusView;

    open spec fn view(&self) -> PipelineStatusView {
        PipelineStatusView {
            id: self.id,
            config: self.config@,
            status: self.status,
            jobs: self.jobs@,
            error: match self.error {
                Some(e) => Some(e@),
                None => None,
            },
        }
    }
}

pub(crate) fn clone_ids(v: &Vec<u32>) -> (r: Vec<u32>)
    ensures
        r@ == v@,
{
    let r = v.clone();
    assert(r@ =~= v@);
    r
}

impl PipelineStatus {
    pub fn deep_clone(&self) -> (r: PipelineStatus)
        ensures
            r@ == self@,
    {
        PipelineStatus {
            id: self.id,
            config: self.config.deep_clone(),
            status: self.status,
            jobs: clone_ids(&self.jobs),
            error: match &self.error {
                Some(e) => Some(e.clone()),
                None => None,
            },
        }
    }
}

} // verus!
