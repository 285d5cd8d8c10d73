use vstd::prelude::*;
use vstd::string::*;

use crate::config::{has_key, Project, ProjectView};
use crate::error::PapError;
use crate::runtime::{arg_value, io_value, log_line, StepContext};
use crate::text::{join, parse_hex, parse_hex_address, starts_with};

verus! {

/// The built-in smoke-test step: it greets its `name` argument in the log.
pub struct HelloStepExecutor;

impl HelloStepExecutor {
    pub fn name(&self) -> (r: String)
        ensures
            r@ == "hello"@,
    {
        String::from_str("hello")
    }

    /// Logs `Hello, <name>!`; fails when the step has no `name` argument.
    pub fn execute(&self, ctx: &mut StepContext) -> (r: Result<(), PapError>)
        ensures
            final(ctx).status == old(ctx).status,
            final(ctx).pipeline_status == old(ctx).pipeline_status,
            final(ctx).files == old(ctx).files,
            match arg_value(old(ctx).status.config.args@, "name"@) {
                Some(n) => r is Ok && final(ctx).log_view() == old(ctx).log_view() + log_line("Hello, "@ + n + "!"@),
                None => r matches Err(e) && e is Execution && final(ctx).log_view() == old(ctx).log_view(),
            },
    {
        let name = match ctx.get_arg("name") {
            Some(n) => n,
            None => {
                return Err(PapError::Execution(String::from_str("missing `name` argument")));
            },
        };
        let greeting = join("Hello, ", name.as_str());
        let message = join(greeting.as_str(), "!");
        ctx.log(message.as_str());
        Ok(())
    }
}

/// Where the fuzzer maps its input when the step names no `input_addr`.
pub const DEFAULT_INPUT_ADDRESS: u64 = 0x4100_0000;

/// `i` is the first project named `name`.
pub open spec fn first_project_at(ps: Seq<ProjectView>, name: Seq<char>, i: int) -> bool {
    &&& 0 <= i < ps.len()
    &&& ps[i].name == name
    &&& forall|j: int| 0 <= j < i ==> (#[trigger] ps[j]).name != name
}

pub open spec fn has_project(ps: Seq<ProjectView>, name: Seq<char>) -> bool {
    exists|i: int| 0 <= i < ps.len() && (#[trigger] ps[i]).name == name
}

pub open spec fn begins_with(s: Seq<char>, p: Seq<char>) -> bool {
    p.len() <= s.len() && s.subrange(0, p.len() as int) == p
}

/// A project that the fuzzer can load: it names a binary, targets ARM or
/// Thumb, and has a loader with non-zero base and stack addresses.
pub open spec fn fuzzable(p: ProjectView) -> bool {
    &&& p.binary.len() > 0
    &&& begins_with(p.arch, "thumb"@) || begins_with(p.arch, "arm"@)
    &&& p.loader matches Some(l) && l.base_address != 0 && l.stack_address != 0
}

/// Everything the fuzzer needs is in place: the project it names, a
/// function address, a harness, the `input`, `output` and `solutions` I/O
/// bindings, and a readable input address where one is given.
pub open spec fn fuzz_ready(ctx: StepContext) -> bool {
    let args = ctx.status.config.args@;
    let io = ctx.status.config.io@;
    let ps = ctx.pipeline_status.config@.projects;
    &&& arg_value(args, "project"@) matches Some(name) && exists|i: int| first_project_at(ps, name, i) && fuzzable(ps[i])
    &&& arg_value(args, "function"@) matches Some(f) && parse_hex(f) is Some
    &&& arg_value(args, "harness"@) is Some
    &&& has_key(io, "input"@) && has_key(io, "output"@) && has_key(io, "solutions"@)
    &&& (arg_value(args, "input_addr"@) matches Some(a) ==> parse_hex(a) is Some)
}

/// What a fuzzing run works from.
pub struct FuzzTarget {
    pub project: Project,
    pub function_address: u64,
    pub harness: String,
    pub input_address: u64,
    pub output: String,
    pub solutions: String,
}

/// `t` is what the step's arguments, bindings and pipeline describe.
pub open spec fn fuzz_target_of(ctx: StepContext, t: FuzzTarget) -> bool {
    let args = ctx.status.config.args@;
    let io = ctx.status.config.io@;
    let ps = ctx.pipeline_status.config@.projects;
    &&& arg_value(args, "project"@) matches Some(name) && exists|i: int| first_project_at(ps, name, i) && t.project@ == ps[i]
    &&& arg_value(args, "function"@) matches Some(f) && parse_hex(f) == Some(t.function_address)
    &&& arg_value(args, "harness"@) == Some(t.harness@)
    &&& (arg_value(args, "input_addr"@) matches Some(a) ==> parse_hex(a) == Some(t.input_address))
    &&& (arg_value(args, "input_addr"@) is None ==> t.input_address == DEFAULT_INPUT_ADDRESS)
    &&& io_value(io, "output"@) == Some(t.output@)
    &&& io_value(io, "solutions"@) == Some(t.solutions@)
    &&& t.project.loader is Some
}

fn missing(what: &str) -> (r: PapError)
    ensures
        r is Execution,
{
    PapError::Execution(join("missing ", what))
}

/// The project that argument `project` names.
pub fn get_project(ctx: &StepContext) -> (r: Result<Project, PapError>)
    ensures
        match arg_value(ctx.status.config.args@, "project"@) {
            Some(name) => match r {
                Ok(p) => exists|i: int| first_project_at(ctx.pipeline_status.config@.projects, name, i) && p@
                    == ctx.pipeline_status.config@.projects[i],
                Err(e) => !has_project(ctx.pipeline_status.config@.projects, name) && e is Execution,
            },
            None => r matches Err(e) && e is Execution,
        },
{
    let name = match ctx.get_arg("project") {
        Some(n) => n,
        None => return Err(missing("`project` argument")),
    };
    let projects = &ctx.pipeline_status.config.projects;
    let ghost ps = ctx.pipeline_status.config@.projects;
    let mut i: usize = 0;
    while i < projects.len()
        invariant
            0 <= i <= projects@.len(),
            ps == ctx.pipeline_status.config@.projects,
            *projects == ctx.pipeline_status.config.projects,
            arg_value(ctx.status.config.args@, "project"@) == Some(name@),
            forall|j: int| 0 <= j < i ==> (#[trigger] ps[j]).name != name@,
        decreases projects@.len() - i,
    {
        assert(ps[i as int] == projects@[i as int]@);
        if projects[i].name == name {
            let p = projects[i].deep_clone();
            assert(first_project_at(ps, name@, i as int));
            assert(p@ == ps[i as int]);
            assert(arg_value(ctx.status.config.args@, "project"@) == Some(name@));
            return Ok(p);
        }
        i = i + 1;
    }
    Err(PapError::Execution(join("project not found: ", name.as_str())))
}

/// Where a fuzzed function returns to; reaching it ends a run.
pub const HARNESS_RETURN_ADDRESS: u64 = 0x1336;

/// How one fuzzing input is set up in the emulator: where the input goes,
/// the function to call, the address it returns to, the stack, and the
/// harness script that prepares the registers.
pub struct FuzzHarness {
    pub input_addr: u64,
    pub func_addr: u64,
    pub return_addr: u64,
    pub stack_addr: u64,
    pub lua_code: String,
}

impl FuzzHarness {
    pub fn new(input_addr: u64, func_addr: u64, stack_addr: u64, lua_code: String) -> (r: FuzzHarness)
        ensures
            r.input_addr == input_addr,
            r.func_addr == func_addr,
            r.return_addr == HARNESS_RETURN_ADDRESS,
            r.stack_addr == stack_addr,
            r.lua_code == lua_code,
    {
        FuzzHarness { input_addr, func_addr, return_addr: HARNESS_RETURN_ADDRESS, stack_addr, lua_code }
    }

    /// The harness for a checked target: input and function addresses from
    /// the step, the stack from the project's loader.
    pub fn for_target(target: &FuzzTarget) -> (r: FuzzHarness)
        requires
            target.project.loader is Some,
        ensures
            r.input_addr == target.input_address,
            r.func_addr == target.function_address,
            r.return_addr == HARNESS_RETURN_ADDRESS,
            r.stack_addr == target.project.loader->Some_0.stack_address,
            r.lua_code@ == target.harness@,
    {
        let stack = match target.project.loader {
            Some(l) => l.stack_address,
            None => 0,
        };
        FuzzHarness::new(target.input_address, target.function_address, stack, target.harness.clone())
    }
}

/// The emulator-based fuzzing step.
pub struct IcicleFuzzerExecutor;

impl IcicleFuzzerExecutor {
    pub fn name(&self) -> (r: String)
        ensures
            r@ == "icicle-fuzzer"@,
    {
        String::from_str("icicle-fuzzer")
    }

    /// Checks the step before any fuzzing starts and gathers what the run
    /// needs.
    pub fn check(&self, ctx: &StepContext) -> (r: Result<FuzzTarget, PapError>)
        ensures
            r is Ok <==> fuzz_ready(*ctx),
            match r {
                Ok(t) => fuzz_target_of(*ctx, t),
                Err(e) => e is Execution,
            },
    {
        let ghost args = ctx.status.config.args@;
        let ghost ps = ctx.pipeline_status.config@.projects;
        let project = match get_project(ctx) {
            Ok(p) => p,
            Err(e) => {
                proof {
                    match arg_value(args, "project"@) {
                        Some(name) => {
                            assert forall|i: int| !first_project_at(ps, name, i) by {
                                if first_project_at(ps, name, i) {
                                    assert(ps[i].name == name);
                                }
                            }
                        },
                        None => {},
                    }
                }
                return Err(e);
            },
        };
        proof {
            let name = arg_value(args, "project"@)->Some_0;
            let i = choose|i: int| first_project_at(ps, name, i) && project@ == ps[i];
            assert forall|k: int| first_project_at(ps, name, k) implies k == i by {
                if k < i {
                    assert(ps[k].name != name);
                } else if i < k {
                    assert(ps[i].name != name);
                }
            }
        }
        if project.binary.as_str().is_empty() {
            return Err(PapError::Execution(join("project has no binary: ", project.name.as_str())));
        }
        if !starts_with(project.arch.as_str(), "thumb") && !starts_with(project.arch.as_str(), "arm") {
            return Err(PapError::Execution(join("unsupported architecture: ", project.arch.as_str())));
        }
        let loader = match project.loader {
            Some(l) => l,
            None => return Err(PapError::Execution(join("project has no loader configuration: ", project.name.as_str()))),
        };
        if loader.base_address == 0 {
            return Err(PapError::Execution(join("invalid base address: 0 in ", project.name.as_str())));
        }
        if loader.stack_address == 0 {
            return Err(PapError::Execution(join("invalid stack address: 0 in ", project.name.as_str())));
        }
        let function = match ctx.get_arg("function") {
            Some(f) => f,
            None => return Err(missing("`function` argument")),
        };
        let function_address = match parse_hex_address(function.as_str()) {
            Some(a) => a,
            None => return Err(PapError::Execution(join("invalid function address: ", function.as_str()))),
        };
        let harness = match ctx.get_arg("harness") {
            Some(h) => h,
            None => return Err(missing("`harness` argument")),
        };
        if !ctx.has_io("input") {
            return Err(missing("required IO field: input"));
        }
        let output = match ctx.get_io("output") {
            Some(o) => o,
            None => return Err(missing("required IO field: output")),
        };
        let solutions = match ctx.get_io("solutions") {
            Some(s) => s,
            None => return Err(missing("required IO field: solutions")),
        };
        let input_address = match ctx.get_arg("input_addr") {
            Some(a) => match parse_hex_address(a.as_str()) {
                Some(v) => v,
                None => return Err(PapError::Execution(join("invalid input address: ", a.as_str()))),
            },
            None => DEFAULT_INPUT_ADDRESS,
        };
        Ok(FuzzTarget { project, function_address, harness, input_address, output, solutions })
    }
}

} // verus!
