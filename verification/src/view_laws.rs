//! What the contracts see of a value is all of it: each part as it is, and lists one for one.
use vstd::prelude::*;

use crate::config;
use crate::config::{Config, HookConfig};
use crate::dispatcher;
use crate::dispatcher::HookCall;
use crate::models::{ApprovalEvent, FileState, PersistedState};
use crate::session_parser;
use crate::session_tree;
use crate::session_tree::{SessionFile, SessionTree};
use crate::sync;
use crate::sync::LogSnapshot;
use crate::text;
use crate::watcher::Watcher;

verus! {

/// An optional text is there exactly where the string is, and says the same.
pub proof fn law_optional_texts(item: Option<String>)
    ensures
        text::optional_text(item) is Some <==> item is Some,
        item matches Some(content) ==> text::optional_text(item) == Some(content@),
{
}

/// Lists of strings, of optional strings and of variables are seen one for one.
pub proof fn law_lists_of_texts(
    items: Seq<String>,
    entries: Seq<Option<String>>,
    env: Seq<(String, String)>,
    contents: Seq<Vec<u8>>,
)
    ensures
        text::texts(items).len() == items.len(),
        forall|i: int| 0 <= i < items.len() ==> #[trigger] text::texts(items)[i] == items[i]@,
        session_tree::optional_texts(entries).len() == entries.len(),
        forall|i: int|
            0 <= i < entries.len() ==> #[trigger] session_tree::optional_texts(entries)[i]
                == text::optional_text(entries[i]),
        dispatcher::variables(env).len() == env.len(),
        forall|i: int|
            0 <= i < env.len() ==> #[trigger] dispatcher::variables(env)[i] == (
                env[i].0@,
                env[i].1@,
            ),
        sync::byte_views(contents).len() == contents.len(),
        forall|i: int|
            0 <= i < contents.len() ==> #[trigger] sync::byte_views(contents)[i] == contents[i]@,
{
}

/// Lists of events, of hooks and of logs are seen one for one.
pub proof fn law_lists_of_values(
    events: Seq<ApprovalEvent>,
    hooks: Seq<HookConfig>,
    files: Seq<SessionFile>,
    logs: Seq<LogSnapshot>,
)
    ensures
        session_parser::event_views(events).len() == events.len(),
        forall|i: int|
            0 <= i < events.len() ==> #[trigger] session_parser::event_views(events)[i]
                == events[i]@,
        config::hook_views(hooks).len() == hooks.len(),
        forall|i: int| 0 <= i < hooks.len() ==> #[trigger] config::hook_views(hooks)[i] == hooks[i]@,
        session_tree::file_views(files).len() == files.len(),
        forall|i: int|
            0 <= i < files.len() ==> #[trigger] session_tree::file_views(files)[i] == files[i]@,
        sync::snapshot_views(logs).len() == logs.len(),
        forall|i: int| 0 <= i < logs.len() ==> #[trigger] sync::snapshot_views(logs)[i] == logs[i]@,
{
}

/// Every part of an event is seen as it is.
pub proof fn law_view_of_event(event: ApprovalEvent)
    ensures
        event@.event == event.event@,
        event@.session_id == event.session_id@,
        event@.cwd == event.cwd@,
        event@.timestamp == event.timestamp@,
        event@.message == event.message@,
        event@.command == event.command@,
{
}

/// Every part of what is remembered of a log is seen as it is, and so is what is remembered of all.
pub proof fn law_view_of_states(file: FileState, state: PersistedState)
    ensures
        file@.offset == file.offset,
        file@.mtime_ns == file.mtime_ns,
        file@.size == file.size,
        file@.cwd == text::optional_text(file.cwd),
        file@.session_id == text::optional_text(file.session_id),
        file@.seen_calls == text::texts(file.seen_calls@),
        state@.initialized == state.initialized,
        state@.files == state.files@,
{
}

/// Every part of a configuration and of its hooks is seen as it is.
pub proof fn law_view_of_configuration(config: Config, hook: HookConfig)
    ensures
        config@.sessions_root == config.sessions_root@,
        config@.state_file == config.state_file@,
        config@.event_timeout_ms == config.event_timeout_ms,
        config@.notifications.enabled == config.notifications.enabled,
        config@.notifications.sound == config.notifications.sound@,
        config@.hooks == config::hook_views(config.hooks@),
        hook@.name == hook.name@,
        hook@.command == text::texts(hook.command@),
        hook@.timeout_ms == hook.timeout_ms,
{
}

/// Every part of a hook's call is seen as it is.
pub proof fn law_view_of_call(call: HookCall)
    ensures
        call@.hook == call.hook,
        call@.program == call.program@,
        call@.args == text::texts(call.args@),
        call@.env == dispatcher::variables(call.env@),
{
}

/// Every part of a log that was found or read is seen as it is.
pub proof fn law_view_of_logs(file: SessionFile, tree: SessionTree, log: LogSnapshot)
    ensures
        file@.path == file.path@,
        file@.session_id == text::optional_text(file.session_id),
        file@.mtime_ns == file.mtime_ns,
        file@.size == file.size,
        tree@ == session_tree::file_views(tree.files@),
        log@.path == log.path@,
        log@.mtime_ns == log.mtime_ns,
        log@.size == log.size,
        log@.content == log.content@,
{
}

/// Every part of a watcher is seen as it is.
pub proof fn law_view_of_watcher(watcher: Watcher)
    ensures
        watcher@.state == watcher.state@,
        watcher@.watched == watcher.watched@,
        watcher@.dirty == watcher.dirty,
        watcher@.last_reconcile_ns == watcher.last_reconcile_ns,
        watcher@.phase == watcher.phase@,
{
}

} // verus!
