//! How events are delivered and how a wake-up is understood, stated on what goes in and comes out.
use vstd::prelude::*;

use crate::config::HookView;
use crate::dispatcher;
use crate::dispatcher::{HookFailure, HookReport, HookStep, HookTurnView};
use crate::events;
use crate::models::EventView;
use crate::notification_log;
use crate::notification_log::LogReading;
use crate::notifier;
use crate::notifier::{
    AttemptView, CommandOutcome, CommandView, DispatchView, VerificationView,
};
use crate::path_laws;
use crate::text;
use crate::watch;
use crate::watch::{PollError, QueueReturn};

verus! {

/// Every hook that is run is run with the first word of its command as the program and all the other
/// words as its arguments, and with the type, the session and the working directory of the event in
/// its environment, however many words its command has.
pub proof fn law_hooks_are_told_the_event(hooks: Seq<HookView>, event: EventView, start: int)
    requires
        0 <= start <= hooks.len(),
    ensures
        dispatcher::next_call(hooks, event, start) matches Some(call) ==> {
            let command = hooks[call.hook].command;
            &&& start <= call.hook < hooks.len()
            &&& command.len() > 0
            &&& call.program == command[0]
            &&& call.args.len() + 1 == command.len()
            &&& forall|k: int|
                #![trigger call.args[k]]
                0 <= k < call.args.len() ==> call.args[k] == command[k + 1]
            &&& call.env.len() == 3
            &&& call.env[0] == ("CODEX_EVENT_TYPE"@, event.event)
            &&& call.env[1] == ("CODEX_SESSION_ID"@, event.session_id)
            &&& call.env[2] == ("CODEX_CWD"@, event.cwd)
        },
    decreases hooks.len() - start,
{
    if start < hooks.len() && hooks[start].command.len() == 0 {
        law_hooks_are_told_the_event(hooks, event, start + 1);
    }
}

/// The next hook is the first from a place on that has a command; without one there is none.
pub proof fn law_first_hook_with_a_command_is_next(
    hooks: Seq<HookView>,
    event: EventView,
    start: int,
    place: int,
)
    requires
        0 <= start <= place < hooks.len(),
        hooks[place].command.len() > 0,
        forall|i: int| start <= i < place ==> (#[trigger] hooks[i]).command.len() == 0,
    ensures
        dispatcher::next_call(hooks, event, start) is Some,
        dispatcher::next_call(hooks, event, start)->0.hook == place,
    decreases place - start,
{
    if start < place {
        assert(hooks[start].command.len() == 0);
        law_first_hook_with_a_command_is_next(hooks, event, start + 1, place);
    }
}

/// After a hook that failed nothing more is run. After one that succeeded the next hook with a
/// command is, or all is done where there is none.
pub proof fn law_turns(hooks: Seq<HookView>, event: EventView, place: int)
    ensures
        dispatcher::turn_after(hooks, event, place, false) is Stop,
        dispatcher::next_call(hooks, event, place + 1) is None ==> dispatcher::turn_after(
            hooks,
            event,
            place,
            true,
        ) is Done,
        dispatcher::next_call(hooks, event, place + 1) matches Some(call) ==> dispatcher::turn_after(
            hooks,
            event,
            place,
            true,
        ) == HookTurnView::Run(call),
{
}

/// A running hook is ended for its time exactly once as many milliseconds have passed as it may
/// take; before that it is looked at again after ten.
pub proof fn law_hooks_have_a_time_limit(elapsed_ms: u128, timeout_ms: u64)
    ensures
        elapsed_ms >= timeout_ms ==> dispatcher::next_hook_step(
            HookReport::Running { elapsed_ms },
            timeout_ms,
        ) == HookStep::Kill(HookFailure::Timeout),
        elapsed_ms < timeout_ms ==> dispatcher::next_hook_step(
            HookReport::Running { elapsed_ms },
            timeout_ms,
        ) == (HookStep::Wait { interval_ms: 10 }),
{
}

/// A hook that has started is written to and then looked at; it is done with when it has ended, well
/// exactly if its status says so, whatever its time limit. Every step that fails is a failure of its
/// own.
pub proof fn law_hook_steps(success: bool, status: String, timeout_ms: u64)
    ensures
        dispatcher::next_hook_step(HookReport::Spawned, timeout_ms) is Write,
        dispatcher::next_hook_step(HookReport::Written, timeout_ms) is Look,
        dispatcher::next_hook_step(HookReport::Waited, timeout_ms) is Look,
        dispatcher::next_hook_step(HookReport::Exited { success: true, status }, timeout_ms) is Done,
        dispatcher::next_hook_step(HookReport::Exited { success: false, status }, timeout_ms)
            == HookStep::Fail(HookFailure::Status { status }),
        dispatcher::next_hook_step(HookReport::SpawnFailed, timeout_ms) == HookStep::Fail(
            HookFailure::Spawn,
        ),
        dispatcher::next_hook_step(HookReport::WriteFailed, timeout_ms) == HookStep::Fail(
            HookFailure::WriteStdin,
        ),
        dispatcher::next_hook_step(HookReport::LookFailed, timeout_ms) == HookStep::Fail(
            HookFailure::Wait,
        ),
{
}

/// A failed hook is told of with its whole name between backquotes, and with the status that it
/// ended with or the time that it had.
pub proof fn law_failures_name_the_hook(hook: HookView, status: String)
    ensures
        dispatcher::failure_words(HookFailure::Spawn, hook) == "failed to spawn hook `"@ + hook.name
            + "`"@,
        dispatcher::failure_words(HookFailure::WriteStdin, hook)
            == "failed to write stdin for hook `"@ + hook.name + "`"@,
        dispatcher::failure_words(HookFailure::Wait, hook) == "failed to wait for hook `"@
            + hook.name + "`"@,
        dispatcher::failure_words(HookFailure::Status { status }, hook) == "hook `"@ + hook.name
            + "` exited with status "@ + status@,
        dispatcher::failure_words(HookFailure::Timeout, hook) == "hook `"@ + hook.name
            + "` timed out after "@ + text::decimal_of(hook.timeout_ms as nat) + "ms"@,
{
}

/// The project of a directory is the whole last name of its path, dots included, also where slashes
/// or lone dots follow it. A directory whose path ends in no name has none.
pub proof fn law_project_is_the_last_name(parent: Seq<char>, name: Seq<char>)
    requires
        path_laws::is_name(name),
    ensures
        notifier::project_of(name) == name,
        notifier::project_of(parent + seq!['/'] + name) == name,
        notifier::project_of(parent + seq!['/'] + name + seq!['/']) == name,
        notifier::project_of(parent + seq!['/'] + name + seq!['/', '.']) == name,
        notifier::project_of(parent + seq!['/'] + name + seq!['/', '.', '.']) == Seq::<
            char,
        >::empty(),
        notifier::project_of(Seq::empty()) == Seq::<char>::empty(),
        notifier::project_of(seq!['/']) == Seq::<char>::empty(),
{
    let path = path_laws::child(parent, name);
    path_laws::law_file_name(parent, name);
    path_laws::law_file_name_before_the_end(path);
    path_laws::law_root_has_no_name();
    assert(path_laws::child(path, Seq::empty()) =~= path + seq!['/']);
    assert(path_laws::child(path, seq!['.']) =~= path + seq!['/', '.']);
    assert(path_laws::child(path, seq!['.', '.']) =~= path + seq!['/', '.', '.']);
}

/// Escaping treats every character by itself: a backslash goes before each backslash and each quote,
/// and nothing else is touched.
pub proof fn law_escaping(a: Seq<char>, b: Seq<char>, ch: char)
    ensures
        notifier::escaped(Seq::empty()) == Seq::<char>::empty(),
        notifier::escaped(a + b) == notifier::escaped(a) + notifier::escaped(b),
        ch == '\\' || ch == '"' ==> notifier::escaped(seq![ch]) == seq!['\\', ch],
        ch != '\\' && ch != '"' ==> notifier::escaped(seq![ch]) == seq![ch],
    decreases b.len(),
{
    let single = seq![ch];
    assert(single.drop_last() =~= Seq::<char>::empty());
    assert(notifier::escaped(single.drop_last()) =~= Seq::<char>::empty());
    assert(notifier::escaped(single) =~= notifier::escaped_char(ch));
    if b.len() == 0 {
        assert(a + b =~= a);
        assert(notifier::escaped(a + b) =~= notifier::escaped(a) + notifier::escaped(b));
    } else {
        law_escaping(a, b.drop_last(), ch);
        assert((a + b).drop_last() =~= a + b.drop_last());
        assert(notifier::escaped(a + b) =~= notifier::escaped(a) + notifier::escaped(b));
    }
}

/// A notification is shown by `osascript` with one script: the message of the event under a fixed
/// title, with the project as the subtitle and the sound of the configuration.
pub proof fn law_notifications_are_scripts(sound: Seq<char>, cwd: Seq<char>, message: Seq<char>)
    ensures
        ({
            let command = notifier::notification_command_of(sound, cwd, message);
            &&& command.program == "/usr/bin/osascript"@
            &&& command.args.len() == 2
            &&& command.args[0] == "-e"@
            &&& command.args[1] == notifier::notification_script(
                "Codex Approval"@,
                notifier::project_of(cwd),
                message,
                sound,
            )
        }),
{
}

/// The parts of the script of a notification: the message and the title always, and subtitle and
/// sound where at least one of their characters is no white space.
pub proof fn law_script_parts(
    title: Seq<char>,
    subtitle: Seq<char>,
    body: Seq<char>,
    sound: Seq<char>,
)
    ensures
        ({
            let has_subtitle = exists|i: int|
                0 <= i < subtitle.len() && !text::is_white_space(#[trigger] subtitle[i]);
            let has_sound = exists|i: int|
                0 <= i < sound.len() && !text::is_white_space(#[trigger] sound[i]);
            let shown = "display notification \""@ + notifier::escaped(body) + "\" with title \""@
                + notifier::escaped(title) + "\""@;
            let under = if has_subtitle {
                " subtitle \""@ + notifier::escaped(subtitle) + "\""@
            } else {
                Seq::empty()
            };
            let heard = if has_sound {
                " sound name \""@ + notifier::escaped(sound) + "\""@
            } else {
                Seq::empty()
            };
            notifier::notification_script(title, subtitle, body, sound) == shown + under + heard
        }),
{
    reveal_strlit("display notification \"");
    reveal_strlit("display notification ");
    reveal_strlit("\" with title \"");
    reveal_strlit(" with title ");
    reveal_strlit(" subtitle \"");
    reveal_strlit(" subtitle ");
    reveal_strlit(" sound name \"");
    reveal_strlit(" sound name ");
    reveal_strlit("\"");
    assert("display notification \""@ =~= "display notification "@ + seq!['"']);
    assert("\" with title \""@ =~= seq!['"'] + " with title "@ + seq!['"']);
    assert(" subtitle \""@ =~= " subtitle "@ + seq!['"']);
    assert(" sound name \""@ =~= " sound name "@ + seq!['"']);
    assert("\""@ =~= seq!['"']);
    let shown = "display notification \""@ + notifier::escaped(body) + "\" with title \""@
        + notifier::escaped(title) + "\""@;
    assert(shown =~= "display notification "@ + notifier::quoted(body) + " with title "@
        + notifier::quoted(title));
    assert(" subtitle \""@ + notifier::escaped(subtitle) + "\""@ =~= " subtitle "@
        + notifier::quoted(subtitle));
    assert(" sound name \""@ + notifier::escaped(sound) + "\""@ =~= " sound name "@
        + notifier::quoted(sound));
}

/// What is reported of an attempt to show a notification: the command that was run, and what it came
/// to. A command that could not be started, or that ended without success, has a reason.
pub proof fn law_attempts(
    command: CommandView,
    exit_code: Option<i32>,
    success: bool,
    status: String,
    stdout: String,
    stderr: String,
    error: String,
)
    ensures
        ({
            let ended = notifier::attempt_of(
                command,
                CommandOutcome::Finished { exit_code, success, status, stdout, stderr },
            );
            let failed = notifier::attempt_of(command, CommandOutcome::Failed { error });
            &&& ended.program == command.program && ended.args == command.args
            &&& ended.exit_code == exit_code && ended.success == success
            &&& ended.stdout == stdout@ && ended.stderr == stderr@
            &&& success ==> ended.error is None
            &&& !success ==> ended.error == Some("process exited with status "@ + status@)
            &&& failed.program == command.program && failed.args == command.args
            &&& failed.exit_code is None && !failed.success
            &&& failed.stdout.len() == 0 && failed.stderr.len() == 0
            &&& failed.error == Some(error@)
        }),
{
}

/// The report of an attempt says of it whether it succeeded and why not. The log is read three
/// quarters of a second after it.
pub proof fn law_dispatch_reports(attempt: AttemptView)
    ensures
        notifier::dispatch_of(attempt).success == attempt.success,
        notifier::dispatch_of(attempt).error == attempt.error,
        notifier::dispatch_of(attempt).attempt == attempt,
        notifier::notifier_program() == "/usr/bin/osascript"@,
        notifier::unsupported_reason() == "notifications are only supported on macOS"@,
        notifier::LOG_SETTLE_DELAY_MS == 750,
{
}

/// The line at a place holds a text, and none before it does.
pub open spec fn is_first_with(lines: Seq<Seq<char>>, marker: Seq<char>, place: int) -> bool {
    &&& 0 <= place < lines.len()
    &&& text::occurs_in(marker, lines[place])
    &&& forall|i: int| 0 <= i < place ==> !text::occurs_in(marker, #[trigger] lines[i])
}

/// Some line holds a text.
pub open spec fn is_in_log(lines: Seq<Seq<char>>, marker: Seq<char>) -> bool {
    exists|i: int| 0 <= i < lines.len() && text::occurs_in(marker, #[trigger] lines[i])
}

/// The first line that holds a text is found wherever there is one.
pub proof fn law_first_line_is_found(lines: Seq<Seq<char>>, marker: Seq<char>)
    ensures
        notification_log::first_line_with(lines, marker) is Some <==> is_in_log(lines, marker),
        forall|place: int| #[trigger]
            is_first_with(lines, marker, place) ==> notification_log::first_line_with(lines, marker)
                == Some(lines[place]),
    decreases lines.len(),
{
    if lines.len() > 0 {
        let rest = lines.drop_last();
        law_first_line_is_found(rest, marker);
        assert forall|i: int| 0 <= i < rest.len() implies #[trigger] rest[i] == lines[i] by {}
        assert(lines[lines.len() - 1] == lines.last());
        if is_in_log(rest, marker) {
            let i = choose|i: int|
                0 <= i < rest.len() && text::occurs_in(marker, #[trigger] rest[i]);
            assert(text::occurs_in(marker, lines[i]));
        }
        if is_in_log(lines, marker) {
            let i = choose|i: int|
                0 <= i < lines.len() && text::occurs_in(marker, #[trigger] lines[i]);
            if i < rest.len() {
                assert(text::occurs_in(marker, rest[i]));
            }
        }
        assert forall|place: int| #[trigger]
            is_first_with(lines, marker, place) implies notification_log::first_line_with(
            lines,
            marker,
        ) == Some(lines[place]) by {
            if place < rest.len() {
                assert forall|i: int| 0 <= i < place implies !text::occurs_in(
                    marker,
                    #[trigger] rest[i],
                ) by {
                    assert(rest[i] == lines[i]);
                }
                assert(rest[place] == lines[place]);
                assert(is_first_with(rest, marker, place));
            } else {
                assert forall|i: int| 0 <= i < rest.len() implies !text::occurs_in(
                    marker,
                    #[trigger] rest[i],
                ) by {
                    assert(rest[i] == lines[i]);
                }
                assert(!is_in_log(rest, marker));
            }
        }
    }
}

/// Each marker in turn is shown with the first line that holds it, and reported missing where no
/// line does; the order is that of the markers.
pub proof fn law_markers_are_looked_up_in_order(
    lines: Seq<Seq<char>>,
    markers: Seq<Seq<char>>,
    marker: Seq<char>,
    place: int,
)
    ensures
        notification_log::matched_lines(lines, Seq::empty()).len() == 0,
        notification_log::missing_markers(lines, Seq::empty()).len() == 0,
        is_first_with(lines, marker, place) ==> {
            &&& notification_log::matched_lines(lines, markers.push(marker))
                == notification_log::matched_lines(lines, markers).push(lines[place])
            &&& notification_log::missing_markers(lines, markers.push(marker))
                == notification_log::missing_markers(lines, markers)
        },
        !is_in_log(lines, marker) ==> {
            &&& notification_log::matched_lines(lines, markers.push(marker))
                == notification_log::matched_lines(lines, markers)
            &&& notification_log::missing_markers(lines, markers.push(marker))
                == notification_log::missing_markers(lines, markers).push(marker)
        },
{
    law_first_line_is_found(lines, marker);
    assert(markers.push(marker).drop_last() =~= markers);
}

/// A line of the log is worth keeping when one of five texts occurs in it.
pub open spec fn is_telling(line: Seq<char>) -> bool {
    ||| text::occurs_in("com.apple.ScriptEditor2"@, line)
    ||| text::occurs_in("scheduled for delivery"@, line)
    ||| text::occurs_in("displaying as banner"@, line)
    ||| text::occurs_in("Presenting <NotificationRecord"@, line)
    ||| text::occurs_in("Connection "@, line)
}

/// The lines kept of the log are the telling ones, in their order, the first forty of them.
pub proof fn law_telling_lines_are_kept(lines: Seq<Seq<char>>)
    ensures
        ({
            let telling = lines.filter(|line: Seq<char>| is_telling(line));
            notification_log::recent_lines(lines) == if telling.len() > 40 {
                telling.take(40)
            } else {
                telling
            }
        }),
    decreases lines.len(),
{
    let choice = |line: Seq<char>| is_telling(line);
    reveal(Seq::filter);
    if lines.len() > 0 {
        let rest = lines.drop_last();
        let line = lines.last();
        law_telling_lines_are_kept(rest);
        lemma_telling(line);
        let before = rest.filter(choice);
        let telling = lines.filter(choice);
        if is_telling(line) {
            assert(choice(line));
            assert(telling == before.push(line));
            if before.len() >= 40 {
                assert(telling.take(40) =~= before.take(40));
            }
            if before.len() == 40 {
                assert(before.take(40) =~= before);
            }
        } else {
            assert(!choice(line));
            assert(telling == before);
        }
    }
}

/// The five texts that make a line telling.
proof fn lemma_telling(line: Seq<char>)
    ensures
        notification_log::holds_any(line, notification_log::telling_marks()) <==> is_telling(line),
{
    let marks = notification_log::telling_marks();
    assert(marks[0] == "com.apple.ScriptEditor2"@);
    assert(marks[1] == "scheduled for delivery"@);
    assert(marks[2] == "displaying as banner"@);
    assert(marks[3] == "Presenting <NotificationRecord"@);
    assert(marks[4] == "Connection "@);
}

/// A delivery is verified exactly if the log could be read and each of four texts occurs in one of
/// its lines. The report names what was looked for and what was found of it, and why it failed.
pub proof fn law_delivery_is_verified(
    predicate: Seq<char>,
    readable: bool,
    stdout: Seq<char>,
    stderr: Seq<char>,
)
    ensures
        ({
            let report = notification_log::log_analysis(predicate, readable, stdout, stderr);
            let lines = text::lines_of(stdout);
            let wanted = seq![
                "Connection com.apple.ScriptEditor2 with path: /usr/bin/osascript"@,
                "bundle=com.apple.ScriptEditor2"@,
                "scheduled for delivery"@,
                "displaying as banner"@,
            ];
            &&& report.predicate == predicate
            &&& report.stderr == stderr
            &&& report.window_seconds == 10
            &&& !report.skipped
            &&& report.required_markers == wanted
            &&& report.matched_lines == notification_log::matched_lines(lines, wanted)
            &&& report.missing_markers == notification_log::missing_markers(lines, wanted)
            &&& report.recent_lines == notification_log::recent_lines(lines)
            &&& report.success <==> readable && report.missing_markers.len() == 0
            &&& !readable ==> report.error == Some("`log show` exited unsuccessfully"@)
            &&& readable && report.success ==> report.error is None
            &&& readable && !report.success ==> report.error == Some(
                "missing notification delivery markers: "@ + text::joined_texts(
                    report.missing_markers,
                    ", "@,
                ),
            )
        }),
{
    assert(notification_log::required_markers() =~= seq![
        "Connection com.apple.ScriptEditor2 with path: /usr/bin/osascript"@,
        "bundle=com.apple.ScriptEditor2"@,
        "scheduled for delivery"@,
        "displaying as banner"@,
    ]);
}

/// A verification that had no log to look at, for the given reason: all that is required is missing.
pub open spec fn found_nothing(
    predicate: Seq<char>,
    skipped: bool,
    reason: Seq<char>,
) -> VerificationView {
    let wanted = seq![
        "Connection com.apple.ScriptEditor2 with path: /usr/bin/osascript"@,
        "bundle=com.apple.ScriptEditor2"@,
        "scheduled for delivery"@,
        "displaying as banner"@,
    ];
    VerificationView {
        predicate,
        window_seconds: 10,
        success: false,
        skipped,
        error: Some(reason),
        stderr: Seq::empty(),
        required_markers: wanted,
        missing_markers: wanted,
        matched_lines: Seq::empty(),
        recent_lines: Seq::empty(),
    }
}

/// Notifications work exactly if one was handed to the system and the log, which could be read,
/// shows its delivery. Where none was handed over the log counts for nothing; where the log could
/// not be read nothing is verified, for the reason that it could not.
pub proof fn law_diagnosis(dispatch: DispatchView, stdout: String, stderr: String, error: String)
    ensures
        ({
            let predicate =
                "process == \"osascript\" OR process == \"NotificationCenter\" OR process == \"usernoted\""@;
            let good = notification_log::diagnosis(
                dispatch,
                LogReading::Finished { success: true, stdout, stderr },
            );
            let bad = notification_log::diagnosis(
                dispatch,
                LogReading::Finished { success: false, stdout, stderr },
            );
            let unread = notification_log::diagnosis(dispatch, LogReading::Failed { error });
            let none = notification_log::diagnosis(dispatch, LogReading::Unsupported);
            let seen = notification_log::log_analysis(predicate, true, stdout@, stderr@);
            &&& good.dispatch == dispatch && bad.dispatch == dispatch && unread.dispatch == dispatch
                && none.dispatch == dispatch
            &&& good.verified <==> dispatch.success && seen.success
            &&& dispatch.success ==> good.verification == seen
            &&& dispatch.success ==> bad.verification == notification_log::log_analysis(
                predicate,
                false,
                stdout@,
                stderr@,
            )
            &&& !bad.verified && !unread.verified && !none.verified
            &&& dispatch.success ==> unread.verification == found_nothing(predicate, false, error@)
            &&& dispatch.success ==> none.verification == (VerificationView {
                predicate: Seq::empty(),
                required_markers: Seq::empty(),
                missing_markers: Seq::empty(),
                ..found_nothing(
                    predicate,
                    true,
                    "notification log verification is only supported on macOS"@,
                )
            })
            &&& !dispatch.success ==> {
                let skipped = found_nothing(
                    predicate,
                    true,
                    "dispatch failed before log verification"@,
                );
                &&& good.verification == skipped && bad.verification == skipped
                &&& unread.verification == skipped && none.verification == skipped
            }
        }),
{
}

/// The events that try notifications out are approval requests of no real session, for the given
/// directory and command.
pub proof fn law_test_events(cwd: Seq<char>, command: Seq<char>)
    ensures
        ({
            let event = events::test_event(cwd, command);
            &&& event.event == "approval.requested"@
            &&& event.session_id == "test-session"@
            &&& event.cwd == cwd
            &&& event.timestamp == "1970-01-01T00:00:00Z"@
            &&& event.message == "Test approval request from codex-approval-watcher"@
            &&& event.command == command
        }),
{
}

/// A wake-up that carries no error names the file under the descriptor that it carries, where that
/// is in the table, and nothing where it is not. One that a signal interrupted, or that brought no
/// entry, names nothing.
pub proof fn law_wake_ups_name_files(returned: QueueReturn, table: Map<i32, String>)
    ensures
        returned.count == -1 && returned.errno == Some(4i32) ==> watch::poll_meaning(returned, table)
            == Ok::<Option<Seq<char>>, PollError>(None),
        returned.count == 0 ==> watch::poll_meaning(returned, table) == Ok::<
            Option<Seq<char>>,
            PollError,
        >(None),
        returned.count != -1 && returned.count != 0 && (returned.flags & 0x4000 == 0
            || returned.data == 0) && returned.ident <= 0x7fff_ffff ==> {
            let descriptor = returned.ident as i32;
            &&& table.contains_key(descriptor) ==> watch::poll_meaning(returned, table) == Ok::<
                Option<Seq<char>>,
                PollError,
            >(Some(table[descriptor]@))
            &&& !table.contains_key(descriptor) ==> watch::poll_meaning(returned, table) == Ok::<
                Option<Seq<char>>,
                PollError,
            >(None)
        },
{
}

/// A wake-up that carries an error is one, and so is a call that failed and an entry whose error or
/// descriptor is no such number.
pub proof fn law_wake_ups_that_fail(returned: QueueReturn, table: Map<i32, String>)
    ensures
        returned.count == -1 && returned.errno != Some(4i32) ==> watch::poll_meaning(returned, table)
            == Err::<Option<Seq<char>>, PollError>(PollError::Failed),
        returned.count != -1 && returned.count != 0 && returned.flags & 0x4000 != 0
            && returned.data != 0 ==> {
            &&& -0x8000_0000 <= returned.data <= 0x7fff_ffff ==> watch::poll_meaning(returned, table)
                == Err::<Option<Seq<char>>, PollError>(
                PollError::ErrorEvent { errno: returned.data as i32 },
            )
            &&& !(-0x8000_0000 <= returned.data <= 0x7fff_ffff) ==> watch::poll_meaning(
                returned,
                table,
            ) == Err::<Option<Seq<char>>, PollError>(PollError::ErrorCodeOutOfRange)
        },
        returned.count != -1 && returned.count != 0 && (returned.flags & 0x4000 == 0
            || returned.data == 0) && returned.ident > 0x7fff_ffff ==> watch::poll_meaning(
            returned,
            table,
        ) == Err::<Option<Seq<char>>, PollError>(PollError::DescriptorOutOfRange),
{
}

/// Each way in which a wake-up fails has its words.
pub proof fn law_poll_errors_in_words(errno: i32)
    ensures
        PollError::Failed.words() == "failed to poll kqueue watcher"@,
        (PollError::ErrorEvent { errno }).words() == "kqueue delivered an error event"@,
        PollError::ErrorCodeOutOfRange.words() == "kqueue error code out of range"@,
        PollError::DescriptorOutOfRange.words() == "watched file descriptor out of range"@,
{
}

} // verus!
