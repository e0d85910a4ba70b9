use codex_approval_watcher::config::HookConfig;
use codex_approval_watcher::dispatcher::{
    after_hook, dispatch_event, hook_step, HookFailure, HookReport, HookStep, HookTurn,
};
use codex_approval_watcher::events::build_test_event;

fn hook(name: &str, command: &[&str], timeout_ms: u64) -> HookConfig {
    HookConfig {
        name: name.to_string(),
        command: command.iter().map(|word| word.to_string()).collect(),
        timeout_ms,
    }
}

#[test]
fn hooks_are_run_in_order() {
    let hooks = vec![
        hook("none", &[], 1),
        hook("first", &["/bin/one", "a", "b"], 1),
        hook("none", &[], 1),
        hook("second", &["/bin/two"], 1),
    ];
    let event = build_test_event("/tmp/project-x", "echo ok");
    let first = dispatch_event(&hooks, &event, 0).unwrap();
    assert_eq!(first.hook, 1);
    assert_eq!(first.program, "/bin/one");
    assert_eq!(first.args, vec!["a", "b"]);
    let env: Vec<(&str, &str)> = first
        .env
        .iter()
        .map(|(name, value)| (name.as_str(), value.as_str()))
        .collect();
    assert_eq!(
        env,
        vec![
            ("CODEX_EVENT_TYPE", "approval.requested"),
            ("CODEX_SESSION_ID", "test-session"),
            ("CODEX_CWD", "/tmp/project-x"),
        ]
    );
    let second = dispatch_event(&hooks, &event, first.hook + 1).unwrap();
    assert_eq!(second.hook, 3);
    assert!(second.args.is_empty());
    assert!(dispatch_event(&hooks, &event, second.hook + 1).is_none());
    assert!(dispatch_event(&hooks, &event, 100).is_none());
    assert!(dispatch_event(&Vec::new(), &event, 0).is_none());
}

/// Runs hooks that succeed or fail as told, and gives the places of those run and how it ended.
fn run_all(hooks: &Vec<HookConfig>, outcomes: &[bool]) -> (Vec<usize>, bool) {
    let event = build_test_event("/tmp/project-x", "echo ok");
    let mut run = Vec::new();
    let mut turn = match dispatch_event(hooks, &event, 0) {
        Some(call) => HookTurn::Run(call),
        None => HookTurn::Done,
    };
    loop {
        match turn {
            HookTurn::Run(call) => {
                run.push(call.hook);
                turn = after_hook(hooks, &event, call.hook, outcomes[call.hook]);
            }
            HookTurn::Done => return (run, true),
            HookTurn::Stop => return (run, false),
        }
    }
}

#[test]
fn the_first_hook_that_fails_ends_it() {
    let hooks = vec![
        hook("a", &["x"], 1),
        hook("none", &[], 1),
        hook("b", &["x"], 1),
        hook("c", &["x"], 1),
    ];
    assert_eq!(run_all(&hooks, &[true; 4]), (vec![0, 2, 3], true));
    assert_eq!(run_all(&hooks, &[true, false, true, true]), (vec![0, 2, 3], true));
    assert_eq!(run_all(&hooks, &[true, true, false, true]), (vec![0, 2], false));
    assert_eq!(run_all(&hooks, &[false; 4]), (vec![0], false));
    assert_eq!(run_all(&hooks, &[true, true, true, false]), (vec![0, 2, 3], false));
    assert_eq!(run_all(&Vec::new(), &[]), (Vec::new(), true));

    let event = build_test_event("/", "x");
    assert!(matches!(after_hook(&hooks, &event, usize::MAX, true), HookTurn::Done));
    assert!(matches!(after_hook(&hooks, &event, usize::MAX, false), HookTurn::Stop));
}

#[test]
fn a_hook_counts_by_its_exit_status() {
    let slow = hook("slow", &["x"], 50);
    let exited = |success: bool| HookReport::Exited {
        success,
        status: "exit status: 2".to_string(),
    };
    assert!(matches!(hook_step(&slow, exited(true)), HookStep::Done));
    match hook_step(&slow, exited(false)) {
        HookStep::Fail(failure) => assert_eq!(
            failure.message(&slow),
            "hook `slow` exited with status exit status: 2"
        ),
        other => panic!("unexpected step {other:?}"),
    }
}

#[test]
fn a_hook_that_takes_too_long_is_ended() {
    let slow = hook("slow", &["x"], 50);
    assert!(matches!(
        hook_step(&slow, HookReport::Running { elapsed_ms: 49 }),
        HookStep::Wait { interval_ms: 10 }
    ));
    for elapsed_ms in [50, 51, u128::MAX] {
        match hook_step(&slow, HookReport::Running { elapsed_ms }) {
            HookStep::Kill(failure) => {
                assert_eq!(failure.message(&slow), "hook `slow` timed out after 50ms");
            }
            other => panic!("unexpected step {other:?}"),
        }
    }
}

#[test]
fn a_hook_is_started_fed_and_looked_at() {
    let named = hook("h", &["x"], 50);
    let step = |report: HookReport| hook_step(&named, report);
    assert!(matches!(step(HookReport::Spawned), HookStep::Write));
    assert!(matches!(step(HookReport::Written), HookStep::Look));
    assert!(matches!(step(HookReport::Waited), HookStep::Look));
    assert!(matches!(
        step(HookReport::SpawnFailed),
        HookStep::Fail(HookFailure::Spawn)
    ));
    assert!(matches!(
        step(HookReport::WriteFailed),
        HookStep::Fail(HookFailure::WriteStdin)
    ));
    assert!(matches!(
        step(HookReport::LookFailed),
        HookStep::Fail(HookFailure::Wait)
    ));
}

#[test]
fn failures_are_told_in_words() {
    let named = hook("h", &["x"], u64::MAX);
    assert_eq!(HookFailure::Spawn.message(&named), "failed to spawn hook `h`");
    assert_eq!(
        HookFailure::WriteStdin.message(&named),
        "failed to write stdin for hook `h`"
    );
    assert_eq!(
        HookFailure::Wait.message(&named),
        "failed to wait for hook `h`"
    );
    assert_eq!(
        HookFailure::Timeout.message(&named),
        "hook `h` timed out after 18446744073709551615ms"
    );
}
