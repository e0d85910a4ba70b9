//! Events that are made up to try notifications out.
use vstd::prelude::*;

use crate::models::{ApprovalEvent, EventView};
use crate::text;

verus! {

/// An event of no real session.
pub open spec fn test_event(cwd: Seq<char>, command: Seq<char>) -> EventView {
    EventView {
        event: "approval.requested"@,
        session_id: "test-session"@,
        cwd,
        timestamp: "1970-01-01T00:00:00Z"@,
        message: "Test approval request from codex-approval-watcher"@,
        command,
    }
}

/// An event of no real session, for the given directory and command.
pub fn build_test_event(cwd: &str, command: &str) -> (event: ApprovalEvent)
    ensures
        event@ == test_event(cwd@, command@),
{
    ApprovalEvent {
        event: "approval.requested",
        session_id: "test-session".to_string(),
        cwd: cwd.to_string(),
        timestamp: "1970-01-01T00:00:00Z".to_string(),
        message: "Test approval request from codex-approval-watcher".to_string(),
        command: command.to_string(),
    }
}

/// The event of a test notification sent from a directory.
pub fn test_notification_event(cwd: &str) -> (event: ApprovalEvent)
    ensures
        event@ == (EventView {
            message: "Test approval notification from codex-approval-watcher"@,
            ..test_event(cwd@, "echo test"@)
        }),
{
    let mut event = build_test_event(cwd, "echo test");
    event.message = "Test approval notification from codex-approval-watcher".to_string();
    event
}

/// The event of a notification that is sent to see whether it is delivered; the number of the
/// process tells it from others.
pub fn doctor_event(cwd: &str, process_id: u32) -> (event: ApprovalEvent)
    ensures
        event@ == (EventView {
            message: "Notification doctor probe doctor-"@ + text::decimal_of(process_id as nat),
            ..test_event(cwd@, "codex-approval-watcher doctor-notifications"@)
        }),
{
    let mut event = build_test_event(cwd, "codex-approval-watcher doctor-notifications");
    event.message = "Notification doctor probe doctor-".to_string().concat(
        text::decimal(process_id as u64).as_str(),
    );
    event
}

} // verus!
