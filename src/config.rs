use vstd::prelude::*;

use crate::text::{decimal, decimal_text};

verus! {

/// The value of a step argument.
#[derive(Clone, Debug)]
pub enum ArgType {
    Bool(bool),
    Int(i64),
    String(String),
}

/// The canonical text of an argument value: `true` / `false`, decimal
/// integers, strings as they are.
pub open spec fn arg_text(a: ArgType) -> Seq<char> {
    match a {
        ArgType::Bool(b) => if b { seq!['t', 'r', 'u', 'e'] } else { seq!['f', 'a', 'l', 's', 'e'] },
        ArgType::Int(n) => decimal(n as int),
        ArgType::String(s) => s@,
    }
}

impl ArgType {
    pub fn deep_clone(&self) -> (r: ArgType)
        ensures
            r == *self,
    {
        match self {
            ArgType::Bool(b) => ArgType::Bool(*b),
            ArgType::Int(n) => ArgType::Int(*n),
            ArgType::String(s) => ArgType::String(s.clone()),
        }
    }

    /// The value as a step sees it.
    pub fn render(&self) -> (r: String)
        ensures
            r@ == arg_text(*self),
    {
        match self {
            ArgType::Bool(b) => {
                let mut s = String::new();
                if *b {
                    crate::text::push_char(&mut s, 't');
                    crate::text::push_char(&mut s, 'r');
                    crate::text::push_char(&mut s, 'u');
                    crate::text::push_char(&mut s, 'e');
                } else {
                    crate::text::push_char(&mut s, 'f');
                    crate::text::push_char(&mut s, 'a');
                    crate::text::push_char(&mut s, 'l');
                    crate::text::push_char(&mut s, 's');
                    crate::text::push_char(&mut s, 'e');
                }
                assert(s@ =~= arg_text(*self));
                s
            },
            ArgType::Int(n) => decimal_text(*n),
            ArgType::String(s) => s.clone(),
        }
    }
}

/// One step of a job: an invocation of a registered executor.
#[derive(Clone, Debug)]
pub struct Step {
    pub name: String,
    /// The registry key of the executor.
    pub call: String,
    /// Arguments by name. Lookups take the first entry with a name; a later
    /// entry under the same name is never seen.
    pub args: Vec<(String, ArgType)>,
    /// Names of namespaces or paths for object I/O, by binding name, looked
    /// up by first entry as `args` is.
    pub io: Vec<(String, String)>,
}

pub ghost struct StepView {
    pub name: Seq<char>,
    pub call: Seq<char>,
    pub args: Seq<(String, ArgType)>,
    pub io: Seq<(String, String)>,
}

impl View for Step {
    type V = StepView;

    open spec fn view(&self) -> StepView {
        StepView { name: self.name@, call: self.call@, args: self.args@, io: self.io@ }
    }
}

/// A named, ordered sequence of steps.
#[derive(Clone, Debug)]
pub struct Job {
    pub name: String,
    pub steps: Vec<Step>,
}

pub ghost struct JobView {
    pub name: Seq<char>,
    pub steps: Seq<StepView>,
}

impl View for Job {
    type V = JobView;

    open spec fn view(&self) -> JobView {
        JobView { name: self.name@, steps: self.steps@.map_values(|s: Step| s@) }
    }
}

#[derive(Clone, Copy, Debug)]
pub struct LoaderConfig {
    pub base_address: u64,
    pub stack_address: u64,
}

#[derive(Clone, Debug)]
pub struct MMIOEntry {
    pub address: u64,
    pub size: u64,
    pub handler: String,
}

impl MMIOEntry {
    pub fn deep_clone(&self) -> (r: MMIOEntry)
        ensures
            r == *self,
    {
        MMIOEntry { address: self.address, size: self.size, handler: self.handler.clone() }
    }
}

/// A program under analysis.
#[derive(Clone, Debug)]
pub struct Project {
    pub name: String,
    /// The key of the binary in the submission's file bundle.
    pub binary: String,
    /// An llvm target triple.
    pub arch: String,
    pub loader: Option<LoaderConfig>,
    pub mmio: Vec<MMIOEntry>,
}

pub ghost struct ProjectView {
    pub name: Seq<char>,
    pub binary: Seq<char>,
    pub arch: Seq<char>,
    pub loader: Option<LoaderConfig>,
    pub mmio: Seq<MMIOEntry>,
}

impl View for Project {
    type V = ProjectView;

    open spec fn view(&self) -> ProjectView {
        ProjectView {
            name: self.name@,
            binary: self.binary@,
            arch: self.arch@,
            loader: self.loader,
            mmio: self.mmio@,
        }
    }
}

/// A pipeline description: the projects and the jobs to run on them.
#[derive(Clone, Debug)]
pub struct Config {
    pub projects: Vec<Project>,
    pub jobs: Vec<Job>,
}

pub ghost struct ConfigView {
    pub projects: Seq<ProjectView>,
    pub jobs: Seq<JobView>,
}

impl View for Config {
    type V = ConfigView;

    open spec fn view(&self) -> ConfigView {
        ConfigView {
            projects: self.projects@.map_values(|p: Project| p@),
            jobs: self.jobs@.map_values(|j: Job| j@),
        }
    }
}

/// Whether `k` is a key of the association list `s`.
pub open spec fn has_key<V>(s: Seq<(String, V)>, k: Seq<char>) -> bool {
    exists|i: int| 0 <= i < s.len() && (#[trigger] s[i]).0@ == k
}

/// `i` is the first position of key `k` in `s`.
pub open spec fn first_key_at<V>(s: Seq<(String, V)>, k: Seq<char>, i: int) -> bool {
    &&& 0 <= i < s.len()
    &&& s[i].0@ == k
    &&& forall|j: int| 0 <= j < i ==> (#[trigger] s[j]).0@ != k
}

/// The position of the first entry of `entries` with key `k`.
pub fn find_key<V>(entries: &Vec<(String, V)>, k: &str) -> (r: Option<usize>)
    ensures
        match r {
            Some(i) => first_key_at(entries@, k@, i as int),
            None => !has_key(entries@, k@),
        },
{
    let key = k.to_owned();
    let mut i: usize = 0;
    while i < entries.len()
        invariant
            0 <= i <= entries@.len(),
            key@ == k@,
            forall|j: int| 0 <= j < i ==> (#[trigger] entries@[j]).0@ != k@,
        decreases entries@.len() - i,
    {
        if entries[i].0 == key {
            return Some(i);
        }
        i += 1;
    }
    None
}

pub(crate) fn clone_args(v: &Vec<(String, ArgType)>) -> (r: Vec<(String, ArgType)>)
    ensures
        r@ == v@,
{
    let mut r: Vec<(String, ArgType)> = Vec::new();
    let mut i: usize = 0;
    while i < v.len()
        invariant
            0 <= i <= v@.len(),
            r@ == v@.subrange(0, i as int),
        decreases v@.len() - i,
    {
        let e = (v[i].0.clone(), v[i].1.deep_clone());
        r.push(e);
        i += 1;
        assert(r@ =~= v@.subrange(0, i as int));
    }
    assert(v@.subrange(0, v@.len() as int) =~= v@);
    r
}

pub(crate) fn clone_pairs(v: &Vec<(String, String)>) -> (r: Vec<(String, String)>)
    ensures
        r@ == v@,
{
    let mut r: Vec<(String, String)> = Vec::new();
    let mut i: usize = 0;
    while i < v.len()
        invariant
            0 <= i <= v@.len(),
            r@ == v@.subrange(0, i as int),
        decreases v@.len() - i,
    {
        let e = (v[i].0.clone(), v[i].1.clone());
        r.push(e);
        i += 1;
        assert(r@ =~= v@.subrange(0, i as int));
    }
    assert(v@.subrange(0, v@.len() as int) =~= v@);
    r
}

fn clone_mmio(v: &Vec<MMIOEntry>) -> (r: Vec<MMIOEntry>)
    ensures
        r@ == v@,
{
    let mut r: Vec<MMIOEntry> = Vec::new();
    let mut i: usize = 0;
    while i < v.len()
        invariant
            0 <= i <= v@.len(),
            r@ == v@.subrange(0, i as int),
        decreases v@.len() - i,
    {
        r.push(v[i].deep_clone());
        i += 1;
        assert(r@ =~= v@.subrange(0, i as int));
    }
    assert(v@.subrange(0, v@.len() as int) =~= v@);
    r
}

impl Step {
    pub fn deep_clone(&self) -> (r: Step)
        ensures
            r@ == self@,
    {
        Step {
            name: self.name.clone(),
            call: self.call.clone(),
            args: clone_args(&self.args),
            io: clone_pairs(&self.io),
        }
    }
}

impl Job {
    pub fn deep_clone(&self) -> (r: Job)
        ensures
            r@ == self@,
    {
        let mut steps: Vec<Step> = Vec::new();
        let mut i: usize = 0;
        while i < self.steps.len()
            invariant
                0 <= i <= self.steps@.len(),
                steps@.len() == i,
                forall|j: int| 0 <= j < i ==> (#[trigger] steps@[j])@ == self.steps@[j]@,
            decreases self.steps@.len() - i,
        {
            steps.push(self.steps[i].deep_clone());
            i += 1;
        }
        assert(steps@.map_values(|s: Step| s@) =~= self.steps@.map_values(|s: Step| s@));
        Job { name: self.name.clone(), steps }
    }
}

impl Project {
    pub fn deep_clone(&self) -> (r: Project)
        ensures
            r@ == self@,
    {
        Project {
            name: self.name.clone(),
            binary: self.binary.clone(),
            arch: self.arch.clone(),
            loader: self.loader,
            mmio: clone_mmio(&self.mmio),
        }
    }
}

impl Config {
    pub fn deep_clone(&self) -> (r: Config)
        ensures
            r@ == self@,
    {
        let mut projects: Vec<Project> = Vec::new();
        let mut i: usize = 0;
        while i < self.projects.len()
            invariant
                0 <= i <= self.projects@.len(),
                projects@.len() == i,
                forall|j: int| 0 <= j < i ==> (#[trigger] projects@[j])@ == self.projects@[j]@,
            decreases self.projects@.len() - i,
        {
            projects.push(self.projects[i].deep_clone());
            i += 1;
        }
        assert(projects@.map_values(|p: Project| p@) =~= self.projects@.map_values(|p: Project| p@));
        let mut jobs: Vec<Job> = Vec::new();
        let mut k: usize = 0;
        while k < self.jobs.len()
            invariant
                0 <= k <= self.jobs@.len(),
                jobs@.len() == k,
                forall|j: int| 0 <= j < k ==> (#[trigger] jobs@[j])@ == self.jobs@[j]@,
            decreases self.jobs@.len() - k,
        {
            jobs.push(self.jobs[k].deep_clone());
            k += 1;
        }
        assert(jobs@.map_values(|j: Job| j@) =~= self.jobs@.map_values(|j: Job| j@));
        Config { projects, jobs }
    }
}

} // verus!
