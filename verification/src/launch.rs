//! The launch engine's decisions.
//!
//! Once a descriptor is loaded, the engine prepares the launch — the final
//! argument vector is the configured base arguments followed by the
//! invocation arguments, target and arguments run through the placeholder
//! expander exactly when their flag is set, and the final environment
//! comes from the action engine — and then supervises the spawned child:
//! a detached launch exits with status zero at once, a waited one
//! propagates the child's exit code verbatim, and a failed spawn or a
//! failed wait call ends with the fixed failure status.

use vstd::prelude::*;
use crate::descriptor::ShimConfig;
use crate::envmap::{action_models, apply, spec_apply, EnvMap};
use crate::expand::{env_expand, spec_expand};

verus! {

/// The fixed non-zero status reported when loading, resolving, spawning,
/// or the supervising wait itself fails.
pub const FAILURE_EXIT_CODE: i32 = -1;

/// Joins the configured base arguments and the invocation arguments: base
/// arguments first, invocation arguments after them, never interleaved.
pub fn merge_args(base: &Vec<String>, invocation: &Vec<String>) -> (r: Vec<String>)
    ensures
        r.deep_view() == base.deep_view() + invocation.deep_view(),
{
    let mut r: Vec<String> = Vec::new();
    let n = base.len();
    let mut i: usize = 0;
    while i < n
        invariant
            n == base@.len(),
            i <= n,
            r.deep_view() =~= base.deep_view().take(i as int),
        decreases n - i,
    {
        let ghost rv = r.deep_view();
        let e = &base[i];
        r.push(e.clone());
        proof {
            assert(r.deep_view() =~= rv.push(base.deep_view()[i as int]));
            assert(base.deep_view().take(i as int + 1) =~= base.deep_view().take(i as int).push(
                base.deep_view()[i as int],
            ));
        }
        i = i + 1;
    }
    let m = invocation.len();
    let mut j: usize = 0;
    proof {
        assert(base.deep_view().take(n as int) =~= base.deep_view());
    }
    while j < m
        invariant
            m == invocation@.len(),
            j <= m,
            r.deep_view() =~= base.deep_view() + invocation.deep_view().take(j as int),
        decreases m - j,
    {
        let ghost rv = r.deep_view();
        let e = &invocation[j];
        r.push(e.clone());
        proof {
            assert(r.deep_view() =~= rv.push(invocation.deep_view()[j as int]));
            assert(invocation.deep_view().take(j as int + 1) =~= invocation.deep_view().take(
                j as int,
            ).push(invocation.deep_view()[j as int]));
            assert(base.deep_view() + invocation.deep_view().take(j as int + 1)
                =~= (base.deep_view() + invocation.deep_view().take(j as int)).push(
                invocation.deep_view()[j as int],
            ));
        }
        j = j + 1;
    }
    proof {
        assert(invocation.deep_view().take(m as int) =~= invocation.deep_view());
    }
    r
}

/// The merged arguments after optional expansion: each one expanded
/// against the base snapshot exactly when the flag is set.
pub open spec fn spec_prepared_args(
    merged: Seq<Seq<char>>,
    expand_flag: bool,
    env: Map<Seq<char>, Seq<char>>,
) -> Seq<Seq<char>> {
    if expand_flag {
        merged.map_values(|s: Seq<char>| spec_expand(s, env))
    } else {
        merged
    }
}

/// Everything the spawn step needs.
pub struct PreparedLaunch {
    /// The target path, expanded when the descriptor asks for it.
    pub path: String,
    /// The final argument vector.
    pub args: Vec<String>,
    /// The final environment.
    pub env: EnvMap,
    /// Launch without a visible console, streams to the null device.
    pub hidden: bool,
    /// Wait for the child and propagate its exit code.
    pub wait: bool,
}

/// Prepares a launch: the final argument vector is the configured base
/// arguments followed by the invocation arguments; the target path and
/// the arguments run through the placeholder expander against the base
/// snapshot exactly when their flag is set; the final environment is the
/// base snapshot transformed by the descriptor's action list, in order.
pub fn prepare(config: &ShimConfig, invocation_args: &Vec<String>, base_env: &EnvMap) -> (r:
    PreparedLaunch)
    requires
        base_env.wf(),
    ensures
        r.env.wf(),
        r.path@ == (if config@.env_expand_path {
            spec_expand(config@.path, base_env@)
        } else {
            config@.path
        }),
        r.args.deep_view() == spec_prepared_args(
            config.args.deep_view() + invocation_args.deep_view(),
            config@.env_expand_args,
            base_env@,
        ),
        r.env@ == spec_apply(base_env@, action_models(config.env@)),
        r.hidden == config@.hidden,
        r.wait == config@.wait,
{
    let path = if config.env_expand_path {
        env_expand(&config.path, base_env)
    } else {
        config.path.clone()
    };
    let merged = merge_args(&config.args, invocation_args);
    let args = if config.env_expand_args {
        let ghost mv = merged.deep_view();
        let n = merged.len();
        let mut expanded: Vec<String> = Vec::new();
        let mut i: usize = 0;
        proof {
            assert(expanded.deep_view() =~= mv.take(0).map_values(
                |s: Seq<char>| spec_expand(s, base_env@),
            ));
        }
        while i < n
            invariant
                base_env.wf(),
                n == merged@.len(),
                mv == merged.deep_view(),
                i <= n,
                expanded.deep_view() == mv.take(i as int).map_values(
                    |s: Seq<char>| spec_expand(s, base_env@),
                ),
            decreases n - i,
        {
            let ghost ev = expanded.deep_view();
            let e = &merged[i];
            let x = env_expand(e, base_env);
            let ghost xv = x@;
            expanded.push(x);
            proof {
                assert(expanded.deep_view() =~= ev.push(xv));
                assert(mv.take(i as int + 1) =~= mv.take(i as int).push(mv[i as int]));
                assert(mv[i as int] == merged@[i as int]@);
                assert(mv.take(i as int + 1).map_values(|s: Seq<char>| spec_expand(s, base_env@))
                    =~= mv.take(i as int).map_values(|s: Seq<char>| spec_expand(s, base_env@)).push(
                    spec_expand(mv[i as int], base_env@),
                ));
            }
            i = i + 1;
        }
        proof {
            assert(mv.take(n as int) =~= mv);
        }
        expanded
    } else {
        merged
    };
    let env = apply(base_env, &config.env);
    PreparedLaunch { path, args, env, hidden: config.hidden, wait: config.wait }
}

/// What the engine does right after the spawn step.
#[derive(Clone, Copy, Debug, PartialEq, Eq, Structural)]
pub enum LaunchDecision {
    /// The launcher exits at once with this status.
    ExitWith(i32),
    /// The launcher blocks until the child terminates.
    WaitForChild,
}

/// The decision after the spawn attempt: a rejected spawn is fatal with
/// the fixed failure status; a detached launch exits with status zero at
/// once, without watching the child; a waited one blocks on the child.
pub fn after_spawn(wait: bool, spawn_ok: bool) -> (r: LaunchDecision)
    ensures
        !spawn_ok ==> r == LaunchDecision::ExitWith(FAILURE_EXIT_CODE),
        spawn_ok && !wait ==> r == LaunchDecision::ExitWith(0i32),
        spawn_ok && wait ==> r == LaunchDecision::WaitForChild,
{
    if !spawn_ok {
        LaunchDecision::ExitWith(FAILURE_EXIT_CODE)
    } else if !wait {
        LaunchDecision::ExitWith(0)
    } else {
        LaunchDecision::WaitForChild
    }
}

/// How the supervising wait ended.
#[derive(Clone, Copy, Debug, PartialEq, Eq, Structural)]
pub enum WaitOutcome {
    /// The child terminated with this exit code.
    Exited(i32),
    /// The child terminated without an exit code.
    NoExitCode,
    /// The wait call itself failed.
    WaitFailed,
}

/// The launcher's exit status after waiting: the child's exit code
/// verbatim, or the fixed failure status when the wait call errored or
/// the child left no code behind.
pub fn exit_code_after_wait(outcome: &WaitOutcome) -> (r: i32)
    ensures
        match outcome {
            WaitOutcome::Exited(c) => r == c,
            WaitOutcome::NoExitCode => r == FAILURE_EXIT_CODE,
            WaitOutcome::WaitFailed => r == FAILURE_EXIT_CODE,
        },
{
    match outcome {
        WaitOutcome::Exited(c) => *c,
        WaitOutcome::NoExitCode => FAILURE_EXIT_CODE,
        WaitOutcome::WaitFailed => FAILURE_EXIT_CODE,
    }
}

/// What removing a shim does: each of the two paired files is deleted
/// exactly when it exists, and a missing stand-in or descriptor is no
/// error — removal succeeds and leaves no trace of either file.
pub fn shim_remove_plan(descriptor_exists: bool, standin_exists: bool) -> (r: (bool, bool))
    ensures
        r.0 == descriptor_exists,
        r.1 == standin_exists,
{
    (descriptor_exists, standin_exists)
}

} // verus!
