use codex_approval_watcher::config::NotificationsConfig;
use codex_approval_watcher::events::{
    build_test_event, doctor_event, test_notification_event,
};
use codex_approval_watcher::notification_log::{
    analyze_log_output, doctor_failure, doctor_notification, log_command, log_wait,
    required_log_markers, verify_notification_logs, LogReading,
};
use codex_approval_watcher::notifier::{
    applescript_notification, dispatch_notification, escape_applescript, notification_command,
    notify_approval, project_name, run_command, unsupported_dispatch, wanted_notification, CommandLine,
    CommandOutcome, NotificationDispatchReport,
};

const PREDICATE: &str =
    "process == \"osascript\" OR process == \"NotificationCenter\" OR process == \"usernoted\"";

fn settings(enabled: bool) -> NotificationsConfig {
    NotificationsConfig {
        enabled,
        sound: "Sosumi".to_string(),
    }
}

fn dispatched(success: bool) -> NotificationDispatchReport {
    let command = CommandLine {
        program: "/usr/bin/osascript".to_string(),
        args: vec!["-e".to_string()],
    };
    let outcome = CommandOutcome::Finished {
        exit_code: Some(if success { 0 } else { 3 }),
        success,
        status: "exit status: 3".to_string(),
        stdout: "out".to_string(),
        stderr: "err".to_string(),
    };
    dispatch_notification(run_command(command, outcome))
}

fn delivered_log() -> String {
    required_log_markers().join("\n")
}

#[test]
fn extracts_project_name_from_cwd() {
    assert_eq!(project_name("/Users/tester/project-x"), "project-x");
    assert_eq!(project_name("/Users/tester/.codex"), ".codex");
    assert_eq!(project_name("/"), "");
    assert_eq!(project_name("/a/.."), "");
    assert_eq!(project_name(""), "");
    assert_eq!(project_name("/a/b/./"), "b");
}

#[test]
fn escapes_applescript_strings() {
    assert_eq!(escape_applescript("a\\b\"c"), "a\\\\b\\\"c");
    assert_eq!(escape_applescript(""), "");
    assert_eq!(escape_applescript("\\\""), "\\\\\\\"");
}

#[test]
fn escaped_text_is_what_replacing_gives() {
    for value in ["plain", "\"quoted\"", "\\", "a\\\"b\\", "é\"ß\n"] {
        let expected = value.replace('\\', "\\\\").replace('"', "\\\"");
        assert_eq!(escape_applescript(value), expected);
    }
}

#[test]
fn builds_applescript_notification() {
    let script = applescript_notification("Title", "project-x", "Need approval", "Sosumi");
    assert!(script.contains("display notification"));
    assert!(script.contains("with title \"Title\""));
    assert!(script.contains("subtitle \"project-x\""));
    assert!(script.contains("sound name \"Sosumi\""));
    assert_eq!(
        script,
        "display notification \"Need approval\" with title \"Title\" subtitle \"project-x\" sound name \"Sosumi\""
    );
}

#[test]
fn blank_parts_are_left_out_of_the_script() {
    assert_eq!(
        applescript_notification("T", " ", "a\"b", "\u{3000}"),
        "display notification \"a\\\"b\" with title \"T\""
    );
    assert_eq!(
        applescript_notification("T", "", "b", "S"),
        "display notification \"b\" with title \"T\" sound name \"S\""
    );
}

#[test]
fn the_command_shows_the_event() {
    let event = build_test_event("/tmp/project-x", "echo ok");
    let command = notification_command(&settings(true), &event);
    assert_eq!(command.program, "/usr/bin/osascript");
    assert_eq!(command.args.len(), 2);
    assert_eq!(command.args[0], "-e");
    assert_eq!(
        command.args[1],
        "display notification \"Test approval request from codex-approval-watcher\" with title \"Codex Approval\" subtitle \"project-x\" sound name \"Sosumi\""
    );
}

#[test]
fn nothing_is_shown_where_notifications_are_off() {
    let event = build_test_event("/tmp/project-x", "echo ok");
    assert!(wanted_notification(&settings(false), &event).is_none());
    let wanted = wanted_notification(&settings(true), &event).unwrap();
    let command = notification_command(&settings(true), &event);
    assert_eq!(wanted.program, command.program);
    assert_eq!(wanted.args, command.args);
}

#[test]
fn the_log_is_read_only_after_a_dispatch() {
    assert_eq!(log_wait(&dispatched(true)), Some(750));
    assert_eq!(log_wait(&dispatched(false)), None);
    assert_eq!(log_wait(&unsupported_dispatch()), None);
}

#[test]
fn build_test_event_uses_requested_cwd() {
    let event = build_test_event("/tmp/project-x", "echo ok");

    assert_eq!(event.event, "approval.requested");
    assert_eq!(event.cwd, "/tmp/project-x");
    assert_eq!(event.command, "echo ok");
    assert_eq!(event.session_id, "test-session");
}

#[test]
fn trial_events_say_what_they_are_for() {
    let test = test_notification_event("/here");
    assert_eq!(
        test.message,
        "Test approval notification from codex-approval-watcher"
    );
    assert_eq!(test.command, "echo test");
    assert_eq!(test.cwd, "/here");
    assert_eq!(test.timestamp, "1970-01-01T00:00:00Z");

    let probe = doctor_event("/here", 4_294_967_295);
    assert_eq!(probe.message, "Notification doctor probe doctor-4294967295");
    assert_eq!(probe.command, "codex-approval-watcher doctor-notifications");
    assert_eq!(
        doctor_event("/", 0).message,
        "Notification doctor probe doctor-0"
    );
}

#[test]
fn attempts_report_how_the_command_ended() {
    let good = dispatched(true);
    assert!(good.success);
    assert_eq!(good.error, None);
    assert_eq!(good.attempt.exit_code, Some(0));
    assert_eq!(good.attempt.stdout, "out");
    assert_eq!(good.attempt.args, vec!["-e".to_string()]);

    let bad = dispatched(false);
    assert!(!bad.success);
    assert_eq!(
        bad.error.as_deref(),
        Some("process exited with status exit status: 3")
    );
    assert_eq!(bad.attempt.error, bad.error);
    assert_eq!(bad.attempt.stderr, "err");

    let command = CommandLine {
        program: "p".to_string(),
        args: Vec::new(),
    };
    let failed = run_command(
        command,
        CommandOutcome::Failed {
            error: "no such file".to_string(),
        },
    );
    assert!(!failed.success);
    assert_eq!(failed.exit_code, None);
    assert_eq!(failed.error.as_deref(), Some("no such file"));
    assert_eq!(failed.stdout, "");
}

#[test]
fn other_systems_cannot_notify() {
    let report = unsupported_dispatch();
    assert!(!report.success);
    assert_eq!(
        report.error.as_deref(),
        Some("notifications are only supported on macOS")
    );
    assert_eq!(report.attempt.error, report.error);
    assert_eq!(report.attempt.program, "/usr/bin/osascript");
    assert!(report.attempt.args.is_empty());
}

#[test]
fn approvals_are_notified_where_wanted() {
    assert!(notify_approval(&settings(false), &dispatched(false)).is_ok());
    assert!(notify_approval(&settings(true), &dispatched(true)).is_ok());
    assert_eq!(
        notify_approval(&settings(true), &dispatched(false)).unwrap_err(),
        "process exited with status exit status: 3"
    );
    let mut silent = dispatched(false);
    silent.error = None;
    assert_eq!(
        notify_approval(&settings(true), &silent).unwrap_err(),
        "notification dispatch failed"
    );
}

#[test]
fn analyzes_osascript_log_output() {
    let raw = r#"
2026-03-17 18:25:20.005 Df usernoted[688:2fb75f9] [com.apple.unc:server] Connection com.apple.ScriptEditor2 with path: /usr/bin/osascript
2026-03-17 18:25:20.037 Df usernoted[688:2fb7ce9] [com.apple.usernotificationsd:NotificationsPipeline] [create, [id=DA39-A3EE, time=2026-03-17 09:25:20, bundle=com.apple.ScriptEditor2], Time elapsed=0.024 sec]: Request: Calling pipeline completion with success
2026-03-17 18:25:20.037 Df usernoted[688:2fb7ce9] [com.apple.unc:application] <NotificationRecord app:"com.apple.ScriptEditor2" ident:"DA39-A3EE" req:"" uuid:"EF582C36" source:"3EC3C5E7" staticCategory:"<LEGACY options=(legacyBehavior, hiddenPreviewShowsTitle) actions=[]>"> successfully processed by pipeline, scheduled for delivery.
2026-03-17 18:25:20.142 Df usernoted[688:2fb7cea] [com.apple.unc:application] Presenting <NotificationRecord app:"com.apple.ScriptEditor2" ident:"DA39-A3EE"> as banner (["badge", "sound", "alert"])
2026-03-17 18:25:20.143 Df NotificationCenter[677:194e] [com.apple.unc:application] [com.apple.ScriptEditor2:EF582C36][record: <NotificationRecord app:"com.apple.ScriptEditor2" ident:"DA39-A3EE" req:"" uuid:"EF582C36" source:"3EC3C5E7">] displaying as banner, body: <private>, summary: <private>
"#;

    let report = analyze_log_output("predicate".into(), true, raw, String::new());

    assert!(report.success);
    assert!(report.missing_markers.is_empty());
    assert_eq!(
        report.required_markers,
        vec![
            "Connection com.apple.ScriptEditor2 with path: /usr/bin/osascript".to_string(),
            "bundle=com.apple.ScriptEditor2".to_string(),
            "scheduled for delivery".to_string(),
            "displaying as banner".to_string(),
        ]
    );
    let lines: Vec<&str> = raw.lines().collect();
    assert_eq!(
        report.matched_lines,
        vec![lines[1], lines[2], lines[3], lines[5]]
    );
    assert_eq!(report.recent_lines, lines[1..].to_vec());
    assert_eq!(report.predicate, "predicate");
    assert_eq!(report.window_seconds, 10);
    assert!(!report.skipped);
    assert_eq!(report.error, None);
}

#[test]
fn reports_missing_log_markers() {
    let report = analyze_log_output(
        "predicate".into(),
        true,
        "Connection com.apple.ScriptEditor2 with path: /usr/bin/osascript",
        String::new(),
    );

    assert!(!report.success);
    assert_eq!(
        report.missing_markers,
        vec![
            "bundle=com.apple.ScriptEditor2".to_string(),
            "scheduled for delivery".to_string(),
            "displaying as banner".to_string(),
        ]
    );
    assert_eq!(
        report.error.as_deref(),
        Some("missing notification delivery markers: bundle=com.apple.ScriptEditor2, scheduled for delivery, displaying as banner")
    );
}

#[test]
fn a_log_that_could_not_be_shown_verifies_nothing() {
    let report = analyze_log_output("p".into(), false, &delivered_log(), "denied".into());
    assert!(!report.success);
    assert!(report.missing_markers.is_empty());
    assert_eq!(
        report.error.as_deref(),
        Some("`log show` exited unsuccessfully")
    );
    assert_eq!(report.stderr, "denied");
}

#[test]
fn only_the_first_telling_lines_are_kept() {
    let raw: String = (0..60)
        .map(|number| format!("noise\nConnection {number}\r\n"))
        .collect();
    let report = analyze_log_output("p".into(), true, &raw, String::new());
    assert_eq!(report.recent_lines.len(), 40);
    assert_eq!(report.recent_lines[0], "Connection 0");
    assert_eq!(report.recent_lines[39], "Connection 39");
}

#[test]
fn the_log_is_asked_for_the_last_seconds() {
    let command = log_command();
    assert_eq!(command.program, "/usr/bin/log");
    assert_eq!(
        command.args,
        vec!["show", "--last", "10s", "--style", "compact", "--predicate", PREDICATE]
    );
}

#[test]
fn readings_of_the_log_become_verifications() {
    let shown = verify_notification_logs(LogReading::Finished {
        success: true,
        stdout: delivered_log(),
        stderr: String::new(),
    });
    assert!(shown.success);
    assert_eq!(shown.predicate, PREDICATE);

    let failed = verify_notification_logs(LogReading::Failed {
        error: "no log".to_string(),
    });
    assert!(!failed.success && !failed.skipped);
    assert_eq!(failed.error.as_deref(), Some("no log"));
    assert_eq!(failed.missing_markers, required_log_markers());

    let other = verify_notification_logs(LogReading::Unsupported);
    assert!(!other.success && other.skipped);
    assert_eq!(other.predicate, "");
    assert_eq!(
        other.error.as_deref(),
        Some("notification log verification is only supported on macOS")
    );
    assert!(other.required_markers.is_empty());
}

#[test]
fn the_doctor_tells_whether_notifications_work() {
    let reading = || LogReading::Finished {
        success: true,
        stdout: delivered_log(),
        stderr: String::new(),
    };
    let healthy = doctor_notification(dispatched(true), reading());
    assert!(healthy.verified);
    assert_eq!(doctor_failure(&healthy), None);

    let unsent = doctor_notification(dispatched(false), reading());
    assert!(!unsent.verified);
    assert!(unsent.verification.skipped);
    assert_eq!(
        unsent.verification.error.as_deref(),
        Some("dispatch failed before log verification")
    );
    assert_eq!(unsent.verification.missing_markers, required_log_markers());
    assert_eq!(
        doctor_failure(&unsent).as_deref(),
        Some("process exited with status exit status: 3")
    );

    let mut unseen = doctor_notification(
        dispatched(true),
        LogReading::Failed {
            error: "no log".to_string(),
        },
    );
    assert!(!unseen.verified);
    assert_eq!(doctor_failure(&unseen).as_deref(), Some("no log"));
    unseen.verification.error = None;
    assert_eq!(
        doctor_failure(&unseen).as_deref(),
        Some("notification verification failed")
    );
}
