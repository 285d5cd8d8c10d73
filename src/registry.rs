use vstd::prelude::*;
use vstd::string::*;

use crate::config::{find_key, first_key_at, has_key, JobView};
use crate::context::Context;
use crate::error::PapError;
use crate::text::join;

verus! {

/// Step executors by name, one entry per name: registering a name again
/// replaces its entry, and lookups take the entry with that name.
pub struct StepExecutorRegistry<E> {
    executors: Vec<(String, E)>,
}

impl<E> View for StepExecutorRegistry<E> {
    type V = Seq<(String, E)>;

    closed spec fn view(&self) -> Seq<(String, E)> {
        self.executors@
    }
}

/// Every step of every job calls a name of `reg`.
pub open spec fn all_calls_registered<E>(reg: Seq<(String, E)>, jobs: Seq<JobView>) -> bool {
    forall|j: int, i: int|
        0 <= j < jobs.len() && 0 <= i < jobs[j].steps.len() ==> has_key(reg, #[trigger] jobs[j].steps[i].call)
}

/// Step `i` of job `j` is the first step, in job-then-step order, whose call
/// `reg` lacks.
pub open spec fn first_unregistered_at<E>(reg: Seq<(String, E)>, jobs: Seq<JobView>, j: int, i: int) -> bool {
    &&& 0 <= j < jobs.len()
    &&& 0 <= i < jobs[j].steps.len()
    &&& !has_key(reg, jobs[j].steps[i].call)
    &&& forall|a: int, b: int| 0 <= a < j && 0 <= b < jobs[a].steps.len() ==> has_key(reg, #[trigger] jobs[a].steps[b].call)
    &&& forall|b: int| 0 <= b < i ==> has_key(reg, #[trigger] jobs[j].steps[b].call)
}

impl<E> StepExecutorRegistry<E> {
    /// An empty registry.
    pub fn new() -> (r: StepExecutorRegistry<E>)
        ensures
            r@.len() == 0,
    {
        StepExecutorRegistry { executors: Vec::new() }
    }

    /// The registry that every server starts with: the greeting step under
    /// `hello` and the fuzzer under `icicle-fuzzer`.
    pub fn builtin_executors(hello: E, fuzzer: E) -> (r: StepExecutorRegistry<E>)
        ensures
            r@.len() == 2,
            r@[0].0@ == "hello"@,
            r@[0].1 == hello,
            r@[1].0@ == "icicle-fuzzer"@,
            r@[1].1 == fuzzer,
    {
        let mut executors: Vec<(String, E)> = Vec::new();
        executors.push((String::from_str("hello"), hello));
        executors.push((String::from_str("icicle-fuzzer"), fuzzer));
        StepExecutorRegistry { executors }
    }

    /// Registers `executor` under `name`, replacing an earlier one.
    pub fn register(&mut self, name: String, executor: E)
        ensures
            forall|n: Seq<char>| has_key(final(self)@, n) <==> (has_key(old(self)@, n) || n == name@),
            exists|i: int| first_key_at(final(self)@, name@, i) && final(self)@[i].1 == executor,
            forall|i: int| 0 <= i < final(self)@.len() && (#[trigger] final(self)@[i]).0@ != name@
                ==> exists|k: int| 0 <= k < old(self)@.len() && old(self)@[k] == final(self)@[i],
    {
        match find_key(&self.executors, name.as_str()) {
            Some(i) => {
                let ghost old_v = self@;
                self.executors.set(i, (name, executor));
                assert(forall|k: int| 0 <= k < i ==> (#[trigger] self@[k]) == old_v[k]);
                assert forall|n: Seq<char>| has_key(self@, n) <==> (has_key(old_v, n) || n == name@) by {
                    if has_key(old_v, n) {
                        let k = choose|k: int| 0 <= k < old_v.len() && (#[trigger] old_v[k]).0@ == n;
                        if k != i {
                            assert(self@[k] == old_v[k]);
                        } else {
                            assert(self@[i as int].0@ == n);
                        }
                    }
                    if has_key(self@, n) {
                        let k = choose|k: int| 0 <= k < self@.len() && (#[trigger] self@[k]).0@ == n;
                        if k != i {
                            assert(self@[k] == old_v[k]);
                        }
                    }
                }
                assert(first_key_at(self@, name@, i as int));
                assert forall|k: int| 0 <= k < self@.len() && (#[trigger] self@[k]).0@ != name@
                    implies exists|m: int| 0 <= m < old_v.len() && old_v[m] == self@[k] by {
                    assert(old_v[k] == self@[k]);
                }
            },
            None => {
                let ghost old_v = self@;
                self.executors.push((name, executor));
                let ghost n0 = old_v.len() as int;
                assert forall|n: Seq<char>| has_key(self@, n) <==> (has_key(old_v, n) || n == name@) by {
                    if has_key(old_v, n) {
                        let k = choose|k: int| 0 <= k < old_v.len() && (#[trigger] old_v[k]).0@ == n;
                        assert(self@[k] == old_v[k]);
                    }
                    if n == name@ {
                        assert(self@[n0].0@ == n);
                    }
                    if has_key(self@, n) {
                        let k = choose|k: int| 0 <= k < self@.len() && (#[trigger] self@[k]).0@ == n;
                        if k < n0 {
                            assert(self@[k] == old_v[k]);
                        }
                    }
                }
                assert(first_key_at(self@, name@, n0));
                assert forall|k: int| 0 <= k < self@.len() && (#[trigger] self@[k]).0@ != name@
                    implies exists|m: int| 0 <= m < old_v.len() && old_v[m] == self@[k] by {
                    assert(old_v[k] == self@[k]);
                }
            },
        }
    }

    /// The executor registered under `name`.
    pub fn get(&self, name: &str) -> (r: Option<&E>)
        ensures
            match r {
                Some(e) => exists|i: int| first_key_at(self@, name@, i) && *e == self@[i].1,
                None => !has_key(self@, name@),
            },
    {
        match find_key(&self.executors, name) {
            Some(i) => {
                let e = &self.executors[i].1;
                assert(first_key_at(self@, name@, i as int) && *e == self@[i as int].1);
                Some(e)
            },
            None => None,
        }
    }

    /// Whether an executor is registered under `name`.
    pub fn contains(&self, name: &str) -> (r: bool)
        ensures
            r == has_key(self@, name@),
    {
        find_key(&self.executors, name).is_some()
    }

    /// Checks that every step of `context` calls a registered executor.
    pub fn validate(&self, context: &Context) -> (r: Result<(), PapError>)
        ensures
            r is Ok <==> all_calls_registered(self@, context@.config.jobs),
            match r {
                Ok(_) => true,
                Err(e) => exists|msg: String, j: int, i: int|
                    e == PapError::Configuration(msg) && first_unregistered_at(self@, context@.config.jobs, j, i)
                        && msg@ == "step executor not found: "@ + context@.config.jobs[j].steps[i].call,
            },
    {
        let ghost jobs = context@.config.jobs;
        let mut j: usize = 0;
        while j < context.config.jobs.len()
            invariant
                0 <= j <= jobs.len(),
                jobs == context@.config.jobs,
                forall|a: int, b: int|
                    0 <= a < j && 0 <= b < jobs[a].steps.len() ==> has_key(self@, #[trigger] jobs[a].steps[b].call),
            decreases jobs.len() - j,
        {
            let steps = &context.config.jobs[j].steps;
            assert(steps@.len() == jobs[j as int].steps.len());
            let mut i: usize = 0;
            while i < steps.len()
                invariant
                    0 <= i <= steps@.len(),
                    0 <= j < jobs.len(),
                    jobs == context@.config.jobs,
                    steps@.len() == jobs[j as int].steps.len(),
                    *steps == context.config.jobs@[j as int].steps,
                    forall|a: int, b: int|
                        0 <= a < j && 0 <= b < jobs[a].steps.len() ==> has_key(self@, #[trigger] jobs[a].steps[b].call),
                    forall|b: int| 0 <= b < i ==> has_key(self@, #[trigger] jobs[j as int].steps[b].call),
                decreases steps@.len() - i,
            {
                assert(steps@[i as int].call@ == jobs[j as int].steps[i as int].call);
                if !self.contains(steps[i].call.as_str()) {
                    let msg = join("step executor not found: ", steps[i].call.as_str());
                    assert(first_unregistered_at(self@, jobs, j as int, i as int));
                    return Err(PapError::Configuration(msg));
                }
                i += 1;
            }
            j += 1;
        }
        Ok(())
    }
}

} // verus!
