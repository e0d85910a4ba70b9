//! Whether the system log shows that a notification was delivered.
use vstd::prelude::*;

use crate::notifier;
use crate::notifier::{
    CommandLine, CommandView, DispatchView, DoctorView, NotificationDispatchReport,
    NotificationDoctorReport, NotificationLogVerification, VerificationView,
};
use crate::text;

verus! {

/// Which processes of the system log are looked at.
pub open spec fn log_predicate() -> Seq<char> {
    "process == \"osascript\" OR process == \"NotificationCenter\" OR process == \"usernoted\""@
}

/// What the log of a delivered notification has to hold.
pub open spec fn required_markers() -> Seq<Seq<char>> {
    seq![
        "Connection com.apple.ScriptEditor2 with path: /usr/bin/osascript"@,
        "bundle=com.apple.ScriptEditor2"@,
        "scheduled for delivery"@,
        "displaying as banner"@,
    ]
}

/// What makes a line of the log worth keeping.
pub open spec fn telling_marks() -> Seq<Seq<char>> {
    seq![
        "com.apple.ScriptEditor2"@,
        "scheduled for delivery"@,
        "displaying as banner"@,
        "Presenting <NotificationRecord"@,
        "Connection "@,
    ]
}

/// What the log of a delivered notification has to hold.
pub fn required_log_markers() -> (markers: Vec<String>)
    ensures
        text::texts(markers@) == required_markers(),
{
    let mut markers: Vec<String> = Vec::new();
    markers.push("Connection com.apple.ScriptEditor2 with path: /usr/bin/osascript".to_string());
    markers.push("bundle=com.apple.ScriptEditor2".to_string());
    markers.push("scheduled for delivery".to_string());
    markers.push("displaying as banner".to_string());
    assert(text::texts(markers@) =~= required_markers());
    markers
}

/// What makes a line of the log worth keeping.
fn telling_log_marks() -> (marks: Vec<String>)
    ensures
        text::texts(marks@) == telling_marks(),
{
    let mut marks: Vec<String> = Vec::new();
    marks.push("com.apple.ScriptEditor2".to_string());
    marks.push("scheduled for delivery".to_string());
    marks.push("displaying as banner".to_string());
    marks.push("Presenting <NotificationRecord".to_string());
    marks.push("Connection ".to_string());
    assert(text::texts(marks@) =~= telling_marks());
    marks
}

/// The command that shows the system log of the last seconds.
pub fn log_command() -> (command: CommandLine)
    ensures
        command@ == (CommandView {
            program: "/usr/bin/log"@,
            args: seq![
                "show"@,
                "--last"@,
                "10s"@,
                "--style"@,
                "compact"@,
                "--predicate"@,
                log_predicate(),
            ],
        }),
{
    let mut args: Vec<String> = Vec::new();
    args.push("show".to_string());
    args.push("--last".to_string());
    args.push(text::decimal(notifier::LOG_WINDOW_SECONDS).concat("s"));
    args.push("--style".to_string());
    args.push("compact".to_string());
    args.push("--predicate".to_string());
    args.push(log_predicate_text());
    proof {
        reveal_strlit("10s");
        reveal_strlit("s");
        reveal_with_fuel(text::decimal_of, 3);
        assert(text::decimal_of(10) =~= seq!['1', '0']);
        assert(args@[2]@ =~= "10s"@);
    }
    let command = CommandLine { program: "/usr/bin/log".to_string(), args };
    assert(command@.args =~= seq![
        "show"@,
        "--last"@,
        "10s"@,
        "--style"@,
        "compact"@,
        "--predicate"@,
        log_predicate(),
    ]);
    command
}

/// Which processes of the system log are looked at.
fn log_predicate_text() -> (predicate: String)
    ensures
        predicate@ == log_predicate(),
{
    "process == \"osascript\" OR process == \"NotificationCenter\" OR process == \"usernoted\"".to_string()
}

/// The first line of a list in which a text occurs.
pub open spec fn first_line_with(lines: Seq<Seq<char>>, marker: Seq<char>) -> Option<Seq<char>>
    decreases lines.len(),
{
    if lines.len() == 0 {
        None
    } else {
        match first_line_with(lines.drop_last(), marker) {
            Some(line) => Some(line),
            None => if text::occurs_in(marker, lines.last()) {
                Some(lines.last())
            } else {
                None
            },
        }
    }
}

/// For each marker that some line holds, the first such line.
pub open spec fn matched_lines(lines: Seq<Seq<char>>, markers: Seq<Seq<char>>) -> Seq<Seq<char>>
    decreases markers.len(),
{
    if markers.len() == 0 {
        Seq::empty()
    } else {
        let before = matched_lines(lines, markers.drop_last());
        match first_line_with(lines, markers.last()) {
            Some(line) => before.push(line),
            None => before,
        }
    }
}

/// The markers that no line holds.
pub open spec fn missing_markers(lines: Seq<Seq<char>>, markers: Seq<Seq<char>>) -> Seq<Seq<char>>
    decreases markers.len(),
{
    if markers.len() == 0 {
        Seq::empty()
    } else {
        let before = missing_markers(lines, markers.drop_last());
        if first_line_with(lines, markers.last()) is Some {
            before
        } else {
            before.push(markers.last())
        }
    }
}

/// Some text of a list occurs in a line.
pub open spec fn holds_any(line: Seq<char>, marks: Seq<Seq<char>>) -> bool {
    exists|i: int| 0 <= i < marks.len() && text::occurs_in(#[trigger] marks[i], line)
}

/// The first lines that hold a telling mark, no more than the limit.
pub open spec fn recent_lines(lines: Seq<Seq<char>>) -> Seq<Seq<char>>
    decreases lines.len(),
{
    if lines.len() == 0 {
        Seq::empty()
    } else {
        let before = recent_lines(lines.drop_last());
        if before.len() < notifier::MAX_RECENT_LINES && holds_any(lines.last(), telling_marks()) {
            before.push(lines.last())
        } else {
            before
        }
    }
}

/// The first line of a list in which a text occurs.
fn find_line<'a>(lines: &'a Vec<String>, marker: &str) -> (found: Option<&'a String>)
    ensures
        match found {
            Some(line) => first_line_with(text::texts(lines@), marker@) == Some(line@),
            None => first_line_with(text::texts(lines@), marker@) is None,
        },
{
    let ghost all = text::texts(lines@);
    let mut i: usize = 0;
    assert(all.take(0) =~= Seq::empty());
    while i < lines.len()
        invariant
            i <= lines@.len(),
            all == text::texts(lines@),
            first_line_with(all.take(i as int), marker@) is None,
        decreases lines@.len() - i,
    {
        assert(all.take(i + 1).drop_last() =~= all.take(i as int));
        assert(all[i as int] == lines@[i as int]@);
        if text::contains(lines[i].as_str(), marker) {
            proof {
                lemma_found_line_stays(all, marker@, i + 1);
            }
            return Some(&lines[i]);
        }
        i += 1;
    }
    assert(all.take(i as int) =~= all);
    None
}

/// A line found among the first ones is the one found among all.
proof fn lemma_found_line_stays(lines: Seq<Seq<char>>, marker: Seq<char>, length: int)
    requires
        0 <= length <= lines.len(),
        first_line_with(lines.take(length), marker) is Some,
    ensures
        first_line_with(lines, marker) == first_line_with(lines.take(length), marker),
    decreases lines.len(),
{
    if length < lines.len() {
        assert(lines.drop_last().take(length) =~= lines.take(length));
        lemma_found_line_stays(lines.drop_last(), marker, length);
    } else {
        assert(lines.take(length) =~= lines);
    }
}

/// Whether some text of a list occurs in a line.
fn line_holds_any(line: &str, marks: &Vec<String>) -> (result: bool)
    ensures
        result == holds_any(line@, text::texts(marks@)),
{
    let ghost all = text::texts(marks@);
    let mut i: usize = 0;
    while i < marks.len()
        invariant
            i <= marks@.len(),
            all == text::texts(marks@),
            forall|j: int| 0 <= j < i ==> !text::occurs_in(#[trigger] all[j], line@),
        decreases marks@.len() - i,
    {
        assert(all[i as int] == marks@[i as int]@);
        if text::contains(line, marks[i].as_str()) {
            return true;
        }
        i += 1;
    }
    false
}

/// The first lines that hold a telling mark.
fn keep_recent_lines(lines: &Vec<String>) -> (result: Vec<String>)
    ensures
        text::texts(result@) == recent_lines(text::texts(lines@)),
{
    let ghost all = text::texts(lines@);
    let marks = telling_log_marks();
    let mut result: Vec<String> = Vec::new();
    let mut i: usize = 0;
    assert(all.take(0) =~= Seq::empty());
    assert(text::texts(result@) =~= Seq::empty());
    while i < lines.len()
        invariant
            i <= lines@.len(),
            all == text::texts(lines@),
            text::texts(marks@) == telling_marks(),
            text::texts(result@) == recent_lines(all.take(i as int)),
        decreases lines@.len() - i,
    {
        let ghost before = text::texts(result@);
        assert(all.take(i + 1).drop_last() =~= all.take(i as int));
        assert(all.take(i + 1).last() == lines@[i as int]@);
        if result.len() < notifier::MAX_RECENT_LINES && line_holds_any(lines[i].as_str(), &marks) {
            result.push(lines[i].clone());
            assert(text::texts(result@) =~= before.push(lines@[i as int]@));
        }
        i += 1;
    }
    assert(all.take(i as int) =~= all);
    result
}

/// What the log tells of a notification.
pub open spec fn log_analysis(
    predicate: Seq<char>,
    command_success: bool,
    stdout: Seq<char>,
    stderr: Seq<char>,
) -> VerificationView {
    let lines = text::lines_of(stdout);
    let missing = missing_markers(lines, required_markers());
    VerificationView {
        predicate,
        window_seconds: notifier::LOG_WINDOW_SECONDS,
        success: command_success && missing.len() == 0,
        skipped: false,
        error: if !command_success {
            Some("`log show` exited unsuccessfully"@)
        } else if missing.len() == 0 {
            None
        } else {
            Some("missing notification delivery markers: "@ + text::joined_texts(missing, ", "@))
        },
        stderr,
        required_markers: required_markers(),
        missing_markers: missing,
        matched_lines: matched_lines(lines, required_markers()),
        recent_lines: recent_lines(lines),
    }
}

/// Tells from the system log whether a notification was delivered: every required marker has to
/// be in it.
pub fn analyze_log_output(
    predicate: String,
    command_success: bool,
    stdout: &str,
    stderr: String,
) -> (verification: NotificationLogVerification)
    ensures
        verification@ == log_analysis(predicate@, command_success, stdout@, stderr@),
{
    let lines = text::lines(stdout);
    let markers = required_log_markers();
    let ghost all = text::texts(lines@);
    let ghost wanted = required_markers();
    let mut matched: Vec<String> = Vec::new();
    let mut missing: Vec<String> = Vec::new();
    let mut i: usize = 0;
    assert(wanted.take(0) =~= Seq::empty());
    assert(text::texts(matched@) =~= Seq::empty());
    assert(text::texts(missing@) =~= Seq::empty());
    while i < markers.len()
        invariant
            i <= markers@.len(),
            all == text::texts(lines@),
            wanted == text::texts(markers@),
            text::texts(matched@) == matched_lines(all, wanted.take(i as int)),
            text::texts(missing@) == missing_markers(all, wanted.take(i as int)),
        decreases markers@.len() - i,
    {
        let ghost matched_before = text::texts(matched@);
        let ghost missing_before = text::texts(missing@);
        assert(wanted.take(i + 1).drop_last() =~= wanted.take(i as int));
        assert(wanted.take(i + 1).last() == markers@[i as int]@);
        match find_line(&lines, markers[i].as_str()) {
            Some(line) => {
                matched.push(line.clone());
                assert(text::texts(matched@) =~= matched_before.push(line@));
            },
            None => {
                missing.push(markers[i].clone());
                assert(text::texts(missing@) =~= missing_before.push(markers@[i as int]@));
            },
        }
        i += 1;
    }
    assert(wanted.take(i as int) =~= wanted);
    let success = command_success && missing.len() == 0;
    let error = if !command_success {
        Some("`log show` exited unsuccessfully".to_string())
    } else if missing.len() == 0 {
        None
    } else {
        Some(
            "missing notification delivery markers: ".to_string().concat(
                text::join_texts(&missing, ", ").as_str(),
            ),
        )
    };
    NotificationLogVerification {
        predicate,
        window_seconds: notifier::LOG_WINDOW_SECONDS,
        success,
        skipped: false,
        error,
        stderr,
        required_markers: markers,
        missing_markers: missing,
        matched_lines: matched,
        recent_lines: keep_recent_lines(&lines),
    }
}

/// What came of reading the system log: what it showed, or why it could not be read. Other systems
/// have none.
#[derive(Debug)]
pub enum LogReading {
    Finished { success: bool, stdout: String, stderr: String },
    Failed { error: String },
    Unsupported,
}

/// A verification that found nothing out, for the given reason.
pub open spec fn no_verification(skipped: bool, reason: Seq<char>) -> VerificationView {
    VerificationView {
        predicate: log_predicate(),
        window_seconds: notifier::LOG_WINDOW_SECONDS,
        success: false,
        skipped,
        error: Some(reason),
        stderr: Seq::empty(),
        required_markers: required_markers(),
        missing_markers: required_markers(),
        matched_lines: Seq::empty(),
        recent_lines: Seq::empty(),
    }
}

/// A verification on a system that has no such log.
pub open spec fn unsupported_verification() -> VerificationView {
    VerificationView {
        predicate: Seq::empty(),
        window_seconds: notifier::LOG_WINDOW_SECONDS,
        success: false,
        skipped: true,
        error: Some("notification log verification is only supported on macOS"@),
        stderr: Seq::empty(),
        required_markers: Seq::empty(),
        missing_markers: Seq::empty(),
        matched_lines: Seq::empty(),
        recent_lines: Seq::empty(),
    }
}

/// What the reading of the system log tells of a notification.
pub open spec fn verification_of(reading: LogReading) -> VerificationView {
    match reading {
        LogReading::Finished { success, stdout, stderr } => log_analysis(
            log_predicate(),
            success,
            stdout@,
            stderr@,
        ),
        LogReading::Failed { error } => no_verification(false, error@),
        LogReading::Unsupported => unsupported_verification(),
    }
}

/// A verification that found nothing out.
fn unverified(skipped: bool, reason: String) -> (verification: NotificationLogVerification)
    ensures
        verification@ == no_verification(skipped, reason@),
{
    let verification = NotificationLogVerification {
        predicate: log_predicate_text(),
        window_seconds: notifier::LOG_WINDOW_SECONDS,
        success: false,
        skipped,
        error: Some(reason),
        stderr: String::new(),
        required_markers: required_log_markers(),
        missing_markers: required_log_markers(),
        matched_lines: Vec::new(),
        recent_lines: Vec::new(),
    };
    assert(verification@ =~= no_verification(skipped, reason@));
    verification
}

/// Tells from what came of reading the system log whether a notification was delivered.
pub fn verify_notification_logs(reading: LogReading) -> (verification: NotificationLogVerification)
    ensures
        verification@ == verification_of(reading),
{
    match reading {
        LogReading::Finished { success, stdout, stderr } => analyze_log_output(
            log_predicate_text(),
            success,
            stdout.as_str(),
            stderr,
        ),
        LogReading::Failed { error } => unverified(false, error),
        LogReading::Unsupported => {
            let verification = NotificationLogVerification {
                predicate: String::new(),
                window_seconds: notifier::LOG_WINDOW_SECONDS,
                success: false,
                skipped: true,
                error: Some(
                    "notification log verification is only supported on macOS".to_string(),
                ),
                stderr: String::new(),
                required_markers: Vec::new(),
                missing_markers: Vec::new(),
                matched_lines: Vec::new(),
                recent_lines: Vec::new(),
            };
            assert(verification@ =~= unsupported_verification());
            verification
        },
    }
}

/// How long to wait before the system log is read, in milliseconds; nothing where it is not read,
/// because the notification was not handed to the system.
pub fn log_wait(dispatch: &NotificationDispatchReport) -> (wait_ms: Option<u64>)
    ensures
        wait_ms == if dispatch.success {
            Some(notifier::LOG_SETTLE_DELAY_MS)
        } else {
            None
        },
{
    if dispatch.success {
        Some(notifier::LOG_SETTLE_DELAY_MS)
    } else {
        None
    }
}

/// Whether notifications work: what the system log tells counts only where the notification was
/// handed to the system.
pub open spec fn diagnosis(dispatch: DispatchView, reading: LogReading) -> DoctorView {
    let verification = if dispatch.success {
        verification_of(reading)
    } else {
        no_verification(true, "dispatch failed before log verification"@)
    };
    DoctorView { dispatch, verification, verified: dispatch.success && verification.success }
}

/// Tells whether notifications work. Where the notification was not handed to the system, the
/// reading of the log counts for nothing.
pub fn doctor_notification(dispatch: NotificationDispatchReport, reading: LogReading) -> (report:
    NotificationDoctorReport)
    ensures
        report@ == diagnosis(dispatch@, reading),
{
    let verification = if dispatch.success {
        verify_notification_logs(reading)
    } else {
        unverified(true, "dispatch failed before log verification".to_string())
    };
    let verified = dispatch.success && verification.success;
    NotificationDoctorReport { dispatch, verification, verified }
}

/// Why notifications do not work, or nothing where they do.
pub fn doctor_failure(report: &NotificationDoctorReport) -> (reason: Option<String>)
    ensures
        text::optional_text(reason) == if report.verified {
            None
        } else {
            Some(
                match (report@.dispatch.error, report@.verification.error) {
                    (Some(error), _) => error,
                    (None, Some(error)) => error,
                    (None, None) => "notification verification failed"@,
                },
            )
        },
{
    if report.verified {
        return None;
    }
    match &report.dispatch.error {
        Some(error) => Some(error.clone()),
        None => match &report.verification.error {
            Some(error) => Some(error.clone()),
            None => Some("notification verification failed".to_string()),
        },
    }
}

} // verus!
