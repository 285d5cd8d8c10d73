use vstd::prelude::*;

use crate::context::Context;
use crate::error::PapError;
use crate::registry::{all_calls_registered, StepExecutorRegistry};
use crate::status::ExecutionStatus;
use crate::status::{JobStatus, JobStatusView, PipelineStatus, PipelineStatusView};
use crate::store::{log_bytes, step_status_of, StepRow, Store, StoreView};

verus! {

/// The service: a registry of step executors, fixed at start, and the
/// store. Every operation but `submit_pipeline` only consults the store.
pub struct PipelineServer<E> {
    pub registry: StepExecutorRegistry<E>,
    pub store: Store,
}

impl<E> PipelineServer<E> {
    pub open spec fn wf(&self) -> bool {
        self.store.wf()
    }

    /// A server over an empty store.
    pub fn new(registry: StepExecutorRegistry<E>) -> (r: PipelineServer<E>)
        ensures
            r.wf(),
            r.registry@ == registry@,
            r.store@ == StoreView::empty(),
    {
        PipelineServer { registry, store: Store::new() }
    }

    /// Checks that every step of `context` calls a registered executor.
    pub fn validate(&self, context: &Context) -> (r: Result<(), PapError>)
        ensures
            r is Ok <==> all_calls_registered(self.registry@, context@.config.jobs),
            r matches Err(e) ==> e is Configuration,
    {
        self.registry.validate(context)
    }

    /// Inserts the pipeline tree of `context` without validating it.
    pub fn setup_pipeline(&mut self, context: Context) -> (r: Result<PipelineStatus, PapError>)
        requires
            old(self).wf(),
        ensures
            final(self).wf(),
            final(self).registry == old(self).registry,
            r is Ok <==> old(self).store@.has_room(context@),
            match r {
                Ok(p) => final(self).store@ == old(self).store@.insert_pipeline_spec(context@) && p@ == (
                PipelineStatusView {
                    id: old(self).store@.next_pipeline_id,
                    config: context@.config,
                    status: ExecutionStatus::Running,
                    jobs: Seq::new(context@.config.jobs.len(), |j: int| (old(self).store@.next_job_id + j) as u32),
                    error: None,
                }),
                Err(e) => e is Database && final(self).store@ == old(self).store@,
            },
    {
        self.store.insert_pipeline(context)
    }

    /// Accepts a submission: checks every step's `call` against the
    /// registry, then inserts the pipeline tree. Nothing is inserted when a
    /// call is unknown. The status handed back is what the engine runs.
    pub fn submit_pipeline(&mut self, context: Context) -> (r: Result<PipelineStatus, PapError>)
        requires
            old(self).wf(),
        ensures
            final(self).wf(),
            final(self).registry == old(self).registry,
            !all_calls_registered(old(self).registry@, context@.config.jobs) ==> {
                &&& r matches Err(e) && e is Configuration
                &&& final(self).store@ == old(self).store@
            },
            all_calls_registered(old(self).registry@, context@.config.jobs) ==> {
                &&& (r is Ok <==> old(self).store@.has_room(context@))
                &&& match r {
                    Ok(p) => final(self).store@ == old(self).store@.insert_pipeline_spec(context@) && p@ == (
                    PipelineStatusView {
                        id: old(self).store@.next_pipeline_id,
                        config: context@.config,
                        status: ExecutionStatus::Running,
                        jobs: Seq::new(
                            context@.config.jobs.len(),
                            |j: int| (old(self).store@.next_job_id + j) as u32,
                        ),
                        error: None,
                    }),
                    Err(e) => e is Database && final(self).store@ == old(self).store@,
                }
            },
    {
        match self.registry.validate(&context) {
            Err(e) => Err(e),
            Ok(()) => self.store.insert_pipeline(context),
        }
    }

    pub fn get_pipeline(&self, id: u32) -> (r: Result<PipelineStatus, PapError>)
        requires
            self.wf(),
        ensures
            r is Ok <==> self.store@.has_pipeline(id),
            match r {
                Ok(p) => p@ == (PipelineStatusView {
                    id,
                    config: self.store@.pipeline(id).context.config,
                    status: self.store@.pipeline(id).status,
                    jobs: self.store@.jobs_of(id),
                    error: None,
                }),
                Err(e) => e is NotFound,
            },
    {
        self.store.get_pipeline(id)
    }

    pub fn get_pipelines(&self) -> (r: Result<Vec<u32>, PapError>)
        requires
            self.wf(),
        ensures
            r matches Ok(ids) && ids@ == self.store@.pipeline_ids(),
    {
        Ok(self.store.list_pipelines())
    }

    pub fn cancel_pipeline(&mut self, id: u32) -> (r: Result<(), PapError>)
        requires
            old(self).wf(),
        ensures
            final(self).wf(),
            r is Ok,
            final(self).store@ == old(self).store@.cancel_pipeline_spec(id),
            final(self).registry == old(self).registry,
    {
        self.store.cancel_pipeline(id);
        Ok(())
    }

    pub fn delete_pipeline(&mut self, id: u32) -> (r: Result<(), PapError>)
        requires
            old(self).wf(),
        ensures
            final(self).wf(),
            r is Ok,
            final(self).store@ == old(self).store@.delete_pipeline_spec(id),
            final(self).registry == old(self).registry,
    {
        self.store.delete_pipeline(id);
        Ok(())
    }

    pub fn get_job(&self, id: u32) -> (r: Result<JobStatus, PapError>)
        requires
            self.wf(),
        ensures
            r is Ok <==> self.store@.has_job(id),
            match r {
                Ok(j) => j@ == (JobStatusView {
                    id,
                    config: self.store@.job(id).config,
                    steps: self.store@.steps_of(id).map_values(|x: StepRow| step_status_of(x)),
                    status: self.store@.job(id).status,
                    current_step: Some(self.store@.job(id).current_step),
                }),
                Err(e) => e is NotFound,
            },
    {
        self.store.get_job(id)
    }

    pub fn get_jobs(&self) -> (r: Result<Vec<u32>, PapError>)
        requires
            self.wf(),
        ensures
            r matches Ok(ids) && ids@ == self.store@.job_ids(),
    {
        Ok(self.store.list_jobs())
    }

    pub fn cancel_job(&mut self, id: u32) -> (r: Result<(), PapError>)
        requires
            old(self).wf(),
        ensures
            final(self).wf(),
            r is Ok,
            final(self).store@ == old(self).store@.cancel_job_spec(id),
            final(self).registry == old(self).registry,
    {
        self.store.cancel_job(id);
        Ok(())
    }

    pub fn get_step_log(&self, id: u32) -> (r: Result<Vec<u8>, PapError>)
        requires
            self.wf(),
        ensures
            r is Ok <==> self.store@.has_step(id),
            match r {
                Ok(l) => l@ == log_bytes(self.store@.step(id)),
                Err(e) => e is NotFound,
            },
    {
        self.store.get_step_log(id)
    }

    pub fn get_object(&self, namespace: String, key: Vec<u8>) -> (r: Result<Vec<u8>, PapError>)
        requires
            self.wf(),
        ensures
            r is Ok <==> self.store@.objects.contains_key((namespace@, key@)),
            match r {
                Ok(v) => v@ == self.store@.objects[(namespace@, key@)],
                Err(e) => e is NotFound,
            },
    {
        self.store.get_object(namespace.as_str(), &key)
    }

    pub fn put_object(&mut self, namespace: String, key: Vec<u8>, value: Vec<u8>) -> (r: Result<(), PapError>)
        requires
            old(self).wf(),
        ensures
            final(self).wf(),
            r is Ok,
            final(self).store@ == old(self).store@.put_object_spec(namespace@, key@, value@),
            final(self).registry == old(self).registry,
    {
        self.store.put_object(namespace, key, value);
        Ok(())
    }
}

} // verus!
