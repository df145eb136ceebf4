use sunset::descriptor::{ShimConfig, ShimConfigEnvAction, ShimConfigEnvActionItem};
use sunset::envmap::EnvMap;
use sunset::launch::{
    after_spawn, exit_code_after_wait, merge_args, prepare, shim_remove_plan, LaunchDecision,
    WaitOutcome, FAILURE_EXIT_CODE,
};

#[test]
fn base_arguments_come_before_invocation_arguments() {
    let base = vec![String::from("--flag")];
    let invocation = vec![String::from("x")];
    let merged = merge_args(&base, &invocation);
    assert_eq!(merged, vec![String::from("--flag"), String::from("x")]);
}

#[test]
fn detached_launch_exits_zero_at_once() {
    assert_eq!(after_spawn(false, true), LaunchDecision::ExitWith(0));
}

#[test]
fn waited_launch_blocks_then_propagates_the_child_code() {
    assert_eq!(after_spawn(true, true), LaunchDecision::WaitForChild);
    assert_eq!(exit_code_after_wait(&WaitOutcome::Exited(7)), 7);
    assert_eq!(exit_code_after_wait(&WaitOutcome::Exited(0)), 0);
}

#[test]
fn failures_use_the_fixed_sentinel() {
    assert_ne!(FAILURE_EXIT_CODE, 0);
    assert_eq!(
        after_spawn(true, false),
        LaunchDecision::ExitWith(FAILURE_EXIT_CODE)
    );
    assert_eq!(
        after_spawn(false, false),
        LaunchDecision::ExitWith(FAILURE_EXIT_CODE)
    );
    assert_eq!(
        exit_code_after_wait(&WaitOutcome::WaitFailed),
        FAILURE_EXIT_CODE
    );
    assert_eq!(
        exit_code_after_wait(&WaitOutcome::NoExitCode),
        FAILURE_EXIT_CODE
    );
}

#[test]
fn removal_deletes_what_exists_and_never_fails() {
    // A descriptor without its stand-in: removal still succeeds and asks
    // for the one existing file to go.
    assert_eq!(shim_remove_plan(true, false), (true, false));
    assert_eq!(shim_remove_plan(true, true), (true, true));
    assert_eq!(shim_remove_plan(false, false), (false, false));
}

fn config_for_prepare() -> ShimConfig {
    ShimConfig {
        path: String::from("%TOOLS%/real"),
        args: vec![String::from("--dir=%TOOLS%"), String::from("plain")],
        env: vec![
            ShimConfigEnvActionItem {
                var: String::from("MODE"),
                action: ShimConfigEnvAction::SET,
                value: String::from("shim"),
                separator: String::new(),
            },
            ShimConfigEnvActionItem {
                var: String::from("MODE"),
                action: ShimConfigEnvAction::APPEND,
                value: String::from("extra"),
                separator: String::from("+"),
            },
        ],
        win: false,
        hidden: true,
        wait: false,
        env_expand_path: true,
        env_expand_args: true,
    }
}

#[test]
fn prepare_expands_merges_and_transforms() {
    let mut base = EnvMap::new();
    base.set(&String::from("TOOLS"), &String::from("/opt/tools"));
    let invocation = vec![String::from("%TOOLS%")];
    let c = config_for_prepare();
    let p = prepare(&c, &invocation, &base);
    assert_eq!(p.path, "/opt/tools/real");
    assert_eq!(
        p.args,
        vec![
            String::from("--dir=/opt/tools"),
            String::from("plain"),
            String::from("/opt/tools"),
        ]
    );
    assert_eq!(p.env.lookup("MODE"), Some(String::from("shim+extra")));
    assert_eq!(p.env.lookup("TOOLS"), Some(String::from("/opt/tools")));
    assert!(p.hidden);
    assert!(!p.wait);
}

#[test]
fn prepare_without_flags_leaves_strings_alone() {
    let mut base = EnvMap::new();
    base.set(&String::from("TOOLS"), &String::from("/opt/tools"));
    let mut c = config_for_prepare();
    c.env_expand_path = false;
    c.env_expand_args = false;
    let p = prepare(&c, &Vec::new(), &base);
    assert_eq!(p.path, "%TOOLS%/real");
    assert_eq!(
        p.args,
        vec![String::from("--dir=%TOOLS%"), String::from("plain")]
    );
}
