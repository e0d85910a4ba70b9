//! Local notifications: the script that shows one, what came of running it, and how the system log
//! tells that it was shown.
use vstd::prelude::*;

use crate::config::NotificationsConfig;
use crate::models::ApprovalEvent;
use crate::paths;
use crate::text;

verus! {

/// How far back the system log is searched, in seconds.
pub const LOG_WINDOW_SECONDS: u64 = 10;

/// How long the system log takes to settle, in milliseconds.
pub const LOG_SETTLE_DELAY_MS: u64 = 750;

/// How many lines of the system log a report keeps.
pub const MAX_RECENT_LINES: usize = 40;

/// A program to run, with its arguments.
#[derive(Debug)]
pub struct CommandLine {
    pub program: String,
    pub args: Vec<String>,
}

/// What a `CommandLine` says.
#[verifier::ext_equal]
pub struct CommandView {
    pub program: Seq<char>,
    pub args: Seq<Seq<char>>,
}

impl View for CommandLine {
    type V = CommandView;

    open spec fn view(&self) -> CommandView {
        CommandView { program: self.program@, args: text::texts(self.args@) }
    }
}

/// What came of running a command: how it ended, with the system's words for its exit status, or
/// why it could not be started.
#[derive(Debug)]
pub enum CommandOutcome {
    Finished {
        exit_code: Option<i32>,
        success: bool,
        status: String,
        stdout: String,
        stderr: String,
    },
    Failed { error: String },
}

/// An attempt to show a notification.
#[derive(Debug, Clone)]
pub struct NotificationAttempt {
    pub program: String,
    pub args: Vec<String>,
    pub exit_code: Option<i32>,
    pub success: bool,
    pub error: Option<String>,
    pub stdout: String,
    pub stderr: String,
}

/// What a `NotificationAttempt` says.
#[verifier::ext_equal]
pub struct AttemptView {
    pub program: Seq<char>,
    pub args: Seq<Seq<char>>,
    pub exit_code: Option<i32>,
    pub success: bool,
    pub error: Option<Seq<char>>,
    pub stdout: Seq<char>,
    pub stderr: Seq<char>,
}

impl View for NotificationAttempt {
    type V = AttemptView;

    open spec fn view(&self) -> AttemptView {
        AttemptView {
            program: self.program@,
            args: text::texts(self.args@),
            exit_code: self.exit_code,
            success: self.success,
            error: text::optional_text(self.error),
            stdout: self.stdout@,
            stderr: self.stderr@,
        }
    }
}

/// Whether a notification was handed to the system.
#[derive(Debug, Clone)]
pub struct NotificationDispatchReport {
    pub success: bool,
    pub error: Option<String>,
    pub attempt: NotificationAttempt,
}

/// What a `NotificationDispatchReport` says.
#[verifier::ext_equal]
pub struct DispatchView {
    pub success: bool,
    pub error: Option<Seq<char>>,
    pub attempt: AttemptView,
}

impl View for NotificationDispatchReport {
    type V = DispatchView;

    open spec fn view(&self) -> DispatchView {
        DispatchView {
            success: self.success,
            error: text::optional_text(self.error),
            attempt: self.attempt@,
        }
    }
}

/// Whether the system log shows that a notification was delivered.
#[derive(Debug, Clone)]
pub struct NotificationLogVerification {
    pub predicate: String,
    pub window_seconds: u64,
    pub success: bool,
    pub skipped: bool,
    pub error: Option<String>,
    pub stderr: String,
    pub required_markers: Vec<String>,
    pub missing_markers: Vec<String>,
    pub matched_lines: Vec<String>,
    pub recent_lines: Vec<String>,
}

/// What a `NotificationLogVerification` says.
#[verifier::ext_equal]
pub struct VerificationView {
    pub predicate: Seq<char>,
    pub window_seconds: u64,
    pub success: bool,
    pub skipped: bool,
    pub error: Option<Seq<char>>,
    pub stderr: Seq<char>,
    pub required_markers: Seq<Seq<char>>,
    pub missing_markers: Seq<Seq<char>>,
    pub matched_lines: Seq<Seq<char>>,
    pub recent_lines: Seq<Seq<char>>,
}

impl View for NotificationLogVerification {
    type V = VerificationView;

    open spec fn view(&self) -> VerificationView {
        VerificationView {
            predicate: self.predicate@,
            window_seconds: self.window_seconds,
            success: self.success,
            skipped: self.skipped,
            error: text::optional_text(self.error),
            stderr: self.stderr@,
            required_markers: text::texts(self.required_markers@),
            missing_markers: text::texts(self.missing_markers@),
            matched_lines: text::texts(self.matched_lines@),
            recent_lines: text::texts(self.recent_lines@),
        }
    }
}

/// Whether notifications work, with the reports that tell.
#[derive(Debug, Clone)]
pub struct NotificationDoctorReport {
    pub dispatch: NotificationDispatchReport,
    pub verification: NotificationLogVerification,
    pub verified: bool,
}

/// What a `NotificationDoctorReport` says.
#[verifier::ext_equal]
pub struct DoctorView {
    pub dispatch: DispatchView,
    pub verification: VerificationView,
    pub verified: bool,
}

impl View for NotificationDoctorReport {
    type V = DoctorView;

    open spec fn view(&self) -> DoctorView {
        DoctorView {
            dispatch: self.dispatch@,
            verification: self.verification@,
            verified: self.verified,
        }
    }
}

/// The name of the project in a directory, or nothing.
pub open spec fn project_of(cwd: Seq<char>) -> Seq<char> {
    match paths::file_name_of(cwd) {
        Some(name) => name,
        None => Seq::empty(),
    }
}

/// The name of the project in a directory: the last component of its path, if that is a name.
pub fn project_name(cwd: &str) -> (name: String)
    ensures
        name@ == project_of(cwd@),
{
    match paths::file_name(cwd) {
        Some(name) => name,
        None => String::new(),
    }
}

/// A character as it is written inside a string literal of a script.
pub open spec fn escaped_char(ch: char) -> Seq<char> {
    if ch == '\\' || ch == '"' {
        seq!['\\', ch]
    } else {
        seq![ch]
    }
}

/// A text as it is written inside a string literal of a script.
pub open spec fn escaped(value: Seq<char>) -> Seq<char>
    decreases value.len(),
{
    if value.len() == 0 {
        Seq::empty()
    } else {
        escaped(value.drop_last()) + escaped_char(value.last())
    }
}

/// Escapes backslashes and quotes for a string literal of a script.
pub fn escape_applescript(value: &str) -> (result: String)
    ensures
        result@ == escaped(value@),
{
    let chars = text::characters(value);
    let mut result = String::new();
    let mut i: usize = 0;
    assert(chars@.take(0) =~= Seq::empty());
    assert(result@ =~= Seq::empty());
    while i < chars.len()
        invariant
            i <= chars@.len(),
            result@ == escaped(chars@.take(i as int)),
        decreases chars@.len() - i,
    {
        let ch: char = chars[i];
        let ghost before = result@;
        if ch == '\\' || ch == '"' {
            result.push('\\');
        }
        result.push(ch);
        proof {
            assert(chars@.take(i + 1).drop_last() =~= chars@.take(i as int));
            assert(result@ =~= before + escaped_char(ch));
        }
        i += 1;
    }
    assert(chars@.take(i as int) =~= chars@);
    result
}

/// A text in quotes.
pub open spec fn quoted(value: Seq<char>) -> Seq<char> {
    seq!['"'] + escaped(value) + seq!['"']
}

/// The script that shows a notification. A blank subtitle or sound is left out.
pub open spec fn notification_script(
    title: Seq<char>,
    subtitle: Seq<char>,
    body: Seq<char>,
    sound: Seq<char>,
) -> Seq<char> {
    "display notification "@ + quoted(body) + " with title "@ + quoted(title)
        + if text::is_blank(subtitle) {
        Seq::empty()
    } else {
        " subtitle "@ + quoted(subtitle)
    } + if text::is_blank(sound) {
        Seq::empty()
    } else {
        " sound name "@ + quoted(sound)
    }
}

/// A text in quotes, as it stands in a script.
fn quote(value: &str) -> (result: String)
    ensures
        result@ == quoted(value@),
{
    proof {
        reveal_strlit("\"");
    }
    let result = "\"".to_string().concat(escape_applescript(value).as_str()).concat("\"");
    assert(result@ =~= quoted(value@));
    result
}

/// The script that shows a notification.
pub fn applescript_notification(title: &str, subtitle: &str, body: &str, sound: &str) -> (script:
    String)
    ensures
        script@ == notification_script(title@, subtitle@, body@, sound@),
{
    let mut script = "display notification ".to_string().concat(quote(body).as_str()).concat(
        " with title ",
    ).concat(quote(title).as_str());
    let ghost start = script@;
    let ghost mut middle: Seq<char> = Seq::empty();
    let ghost mut end: Seq<char> = Seq::empty();
    assert(script@ =~= start + middle + end);
    if !text::blank(subtitle) {
        script = script.concat(" subtitle ").concat(quote(subtitle).as_str());
        proof {
            middle = " subtitle "@ + quoted(subtitle@);
        }
        assert(script@ =~= start + middle + end);
    }
    if !text::blank(sound) {
        script = script.concat(" sound name ").concat(quote(sound).as_str());
        proof {
            end = " sound name "@ + quoted(sound@);
        }
        assert(script@ =~= start + middle + end);
    }
    script
}

/// The program that shows notifications.
pub open spec fn notifier_program() -> Seq<char> {
    "/usr/bin/osascript"@
}

/// The command that shows a notification of an event: its message, with the project as the
/// subtitle.
pub open spec fn notification_command_of(
    sound: Seq<char>,
    cwd: Seq<char>,
    message: Seq<char>,
) -> CommandView {
    CommandView {
        program: notifier_program(),
        args: seq![
            "-e"@,
            notification_script("Codex Approval"@, project_of(cwd), message, sound),
        ],
    }
}

/// The command that shows a notification of an event.
pub fn notification_command(config: &NotificationsConfig, event: &ApprovalEvent) -> (command:
    CommandLine)
    ensures
        command@ == notification_command_of(config.sound@, event.cwd@, event.message@),
{
    let subtitle = project_name(event.cwd.as_str());
    let script = applescript_notification(
        "Codex Approval",
        subtitle.as_str(),
        event.message.as_str(),
        config.sound.as_str(),
    );
    let mut args: Vec<String> = Vec::new();
    args.push("-e".to_string());
    args.push(script);
    let command = CommandLine { program: "/usr/bin/osascript".to_string(), args };
    assert(command@.args =~= notification_command_of(config.sound@, event.cwd@, event.message@).args);
    command
}

/// The notification to show for an event: none where notifications are off, so that nothing is run
/// there.
pub fn wanted_notification(config: &NotificationsConfig, event: &ApprovalEvent) -> (command: Option<
    CommandLine,
>)
    ensures
        command is Some <==> config.enabled,
        command matches Some(found) ==> found@ == notification_command_of(
            config.sound@,
            event.cwd@,
            event.message@,
        ),
{
    if config.enabled {
        Some(notification_command(config, event))
    } else {
        None
    }
}

/// What came of an attempt to show a notification.
pub open spec fn attempt_of(command: CommandView, outcome: CommandOutcome) -> AttemptView {
    match outcome {
        CommandOutcome::Finished { exit_code, success, status, stdout, stderr } => AttemptView {
            program: command.program,
            args: command.args,
            exit_code,
            success,
            error: if success {
                None
            } else {
                Some("process exited with status "@ + status@)
            },
            stdout: stdout@,
            stderr: stderr@,
        },
        CommandOutcome::Failed { error } => AttemptView {
            program: command.program,
            args: command.args,
            exit_code: None,
            success: false,
            error: Some(error@),
            stdout: Seq::empty(),
            stderr: Seq::empty(),
        },
    }
}

/// What came of an attempt to show a notification.
pub fn run_command(command: CommandLine, outcome: CommandOutcome) -> (attempt: NotificationAttempt)
    ensures
        attempt@ == attempt_of(command@, outcome),
{
    match outcome {
        CommandOutcome::Finished { exit_code, success, status, stdout, stderr } => {
            NotificationAttempt {
                program: command.program,
                args: command.args,
                exit_code,
                success,
                error: if success {
                    None
                } else {
                    Some("process exited with status ".to_string().concat(status.as_str()))
                },
                stdout,
                stderr,
            }
        },
        CommandOutcome::Failed { error } => {
            let attempt = NotificationAttempt {
                program: command.program,
                args: command.args,
                exit_code: None,
                success: false,
                error: Some(error),
                stdout: String::new(),
                stderr: String::new(),
            };
            assert(attempt@ =~= attempt_of(command@, outcome));
            attempt
        },
    }
}

/// The report of an attempt.
pub open spec fn dispatch_of(attempt: AttemptView) -> DispatchView {
    DispatchView { success: attempt.success, error: attempt.error, attempt }
}

/// The report of an attempt: it succeeded if the attempt did, and failed for the same reason.
pub fn dispatch_notification(attempt: NotificationAttempt) -> (report: NotificationDispatchReport)
    ensures
        report@ == dispatch_of(attempt@),
{
    let error = attempt.error.clone();
    NotificationDispatchReport { success: attempt.success, error, attempt }
}

/// Why notifications cannot be shown on other systems.
pub open spec fn unsupported_reason() -> Seq<char> {
    "notifications are only supported on macOS"@
}

/// The report on a system that cannot show notifications.
pub fn unsupported_dispatch() -> (report: NotificationDispatchReport)
    ensures
        report@ == dispatch_of(
            (AttemptView {
                program: notifier_program(),
                args: Seq::empty(),
                exit_code: None,
                success: false,
                error: Some(unsupported_reason()),
                stdout: Seq::empty(),
                stderr: Seq::empty(),
            }),
        ),
{
    let attempt = NotificationAttempt {
        program: "/usr/bin/osascript".to_string(),
        args: Vec::new(),
        exit_code: None,
        success: false,
        error: Some("notifications are only supported on macOS".to_string()),
        stdout: String::new(),
        stderr: String::new(),
    };
    assert(attempt@ =~= (AttemptView {
        program: notifier_program(),
        args: Seq::empty(),
        exit_code: None,
        success: false,
        error: Some(unsupported_reason()),
        stdout: Seq::empty(),
        stderr: Seq::empty(),
    }));
    dispatch_notification(attempt)
}

/// Whether an approval was notified: it need not be where notifications are off; otherwise the
/// report tells, and gives the reason where it was not.
pub fn notify_approval(config: &NotificationsConfig, report: &NotificationDispatchReport) -> (result:
    Result<(), String>)
    ensures
        result is Ok <==> !config.enabled || report.success,
        result matches Err(reason) ==> reason@ == (match report@.error {
            Some(error) => error,
            None => "notification dispatch failed"@,
        }),
{
    if !config.enabled {
        return Ok(());
    }
    if report.success {
        Ok(())
    } else {
        match &report.error {
            Some(error) => Err(error.clone()),
            None => Err("notification dispatch failed".to_string()),
        }
    }
}

} // verus!
