//! What log entries do, stated on their members alone: which of them give an event, what the
//! event says, and what is remembered of the log afterwards.
use vstd::prelude::*;
use vstd::utf8;

use crate::json;
use crate::json::{ArgumentsView, EntryView, Json, PayloadView};
use crate::models::{EventView, FileStateView};
use crate::session_parser;
use crate::text;

verus! {

/// The content of a text that may be absent.
pub open spec fn content_or_nothing(value: Option<Seq<char>>) -> Seq<char> {
    match value {
        Some(content) => content,
        None => Seq::empty(),
    }
}

/// A text is there and at least one of its characters is no white space.
pub open spec fn says_something(value: Option<Seq<char>>) -> bool {
    value is Some && exists|i: int|
        0 <= i < value->0.len() && !text::is_white_space(#[trigger] value->0[i])
}

/// The key of a tool call: its id where that is there and not empty, and otherwise its time, its
/// name and its command with colons between them.
pub open spec fn is_key_of(
    key: Seq<char>,
    timestamp: Option<Seq<char>>,
    payload: PayloadView,
    arguments: ArgumentsView,
) -> bool {
    if payload.call_id is Some && payload.call_id->0.len() > 0 {
        payload.call_id == Some(key)
    } else {
        key == content_or_nothing(timestamp) + seq![':'] + content_or_nothing(payload.name) + seq![
            ':',
        ] + content_or_nothing(arguments.cmd)
    }
}

/// A log has a working directory and a session id, neither of them empty.
pub open spec fn names_its_session(state: FileStateView) -> bool {
    &&& state.cwd is Some && state.cwd->0.len() > 0
    &&& state.session_id is Some && state.session_id->0.len() > 0
}

/// An entry is a tool call that asks for escalated permissions. Its command and its justification
/// play no part.
pub open spec fn requires_escalation(
    entry: EntryView,
    arguments: Option<ArgumentsView>,
) -> bool {
    &&& entry.kind == Some("response_item"@)
    &&& entry.payload is Some
    &&& entry.payload->0.kind == Some("function_call"@)
    &&& entry.payload->0.arguments is Some
    &&& arguments is Some
    &&& arguments->0.sandbox_permissions == Some("require_escalated"@)
}

/// There is one key of a tool call.
proof fn lemma_key_of_call(key: Seq<char>, entry: EntryView, arguments: ArgumentsView)
    requires
        entry.payload is Some,
    ensures
        is_key_of(key, entry.timestamp, entry.payload->0, arguments) <==> key
            == session_parser::call_key(entry, arguments),
{
    reveal_strlit(":");
    let payload = entry.payload->0;
    if !(payload.call_id is Some && payload.call_id->0.len() > 0) {
        assert(":"@ =~= seq![':']);
    }
}

/// A text that says something is taken as it is.
proof fn lemma_fallback(value: Option<Seq<char>>, fallback: Seq<char>)
    ensures
        says_something(value) ==> session_parser::or_fallback(value, fallback) == value->0,
        !says_something(value) ==> session_parser::or_fallback(value, fallback) == fallback,
{
    if value is Some {
        if text::is_blank(value->0) {
            assert(!says_something(value));
        }
    }
}

/// The names of the two kinds of entries that are read are different.
proof fn lemma_entry_kinds()
    ensures
        "session_meta"@ != "response_item"@,
{
    reveal_strlit("session_meta");
    reveal_strlit("response_item");
    assert("session_meta"@.len() != "response_item"@.len());
}

/// A tool call that asks for escalated permissions, in a session that is named and under a key that
/// is not remembered, gives an event, whether it has a command and a justification or not. The
/// event carries the session and the time, and the command and the justification where they say
/// something, with fixed texts in their place where they do not. The key is then the latest of the
/// remembered ones, and nothing else of the log changes.
pub proof fn law_escalation_is_reported(
    entry: EntryView,
    arguments: ArgumentsView,
    key: Seq<char>,
    state: FileStateView,
)
    requires
        requires_escalation(entry, Some(arguments)),
        names_its_session(state),
        is_key_of(key, entry.timestamp, entry.payload->0, arguments),
        !state.seen_calls.contains(key),
    ensures
        ({
            let (after, event) = session_parser::entry_outcome(entry, Some(arguments), state);
            &&& event is Some
            &&& event->0.event == "approval.requested"@
            &&& Some(event->0.session_id) == state.session_id
            &&& Some(event->0.cwd) == state.cwd
            &&& event->0.timestamp == content_or_nothing(entry.timestamp)
            &&& says_something(arguments.cmd) ==> Some(event->0.command) == arguments.cmd
            &&& !says_something(arguments.cmd) ==> event->0.command
                == "Command requires approval"@
            &&& says_something(arguments.justification) ==> Some(event->0.message)
                == arguments.justification
            &&& !says_something(arguments.justification) ==> event->0.message
                == "Approval required"@
            &&& after.seen_calls.len() > 0 && after.seen_calls.last() == key
            &&& state.seen_calls.len() < 100 ==> after.seen_calls.drop_last() == state.seen_calls
            &&& state.seen_calls.len() >= 100 ==> after.seen_calls.drop_last()
                == state.seen_calls.skip(state.seen_calls.len() - 99)
            &&& after == FileStateView { seen_calls: after.seen_calls, ..state }
        }),
{
    lemma_entry_kinds();
    lemma_key_of_call(key, entry, arguments);
    lemma_fallback(arguments.cmd, "Command requires approval"@);
    lemma_fallback(arguments.justification, "Approval required"@);
    let after = session_parser::entry_outcome(entry, Some(arguments), state).0;
    if state.seen_calls.len() < 100 {
        assert(after.seen_calls.drop_last() =~= state.seen_calls);
    } else {
        assert(after.seen_calls.drop_last() =~= state.seen_calls.skip(
            state.seen_calls.len() - 99,
        ));
    }
}

/// An event comes of nothing but a tool call that asks for escalated permissions, in a session that
/// is named and under a key that is not remembered.
pub proof fn law_nothing_else_is_reported(
    entry: EntryView,
    arguments: Option<ArgumentsView>,
    key: Seq<char>,
    state: FileStateView,
)
    requires
        session_parser::entry_outcome(entry, arguments, state).1 is Some,
        is_key_of(key, entry.timestamp, entry.payload->0, arguments->0),
    ensures
        requires_escalation(entry, arguments),
        names_its_session(state),
        !state.seen_calls.contains(key),
{
    lemma_entry_kinds();
    lemma_key_of_call(key, entry, arguments->0);
}

/// An entry of kind `session_meta` with a payload gives no event. The working directory and the id
/// of its payload are taken over where they are there and not empty; everything else stays.
pub proof fn law_metadata_is_taken_over(
    entry: EntryView,
    arguments: Option<ArgumentsView>,
    state: FileStateView,
)
    requires
        entry.kind == Some("session_meta"@),
        entry.payload is Some,
    ensures
        ({
            let (after, event) = session_parser::entry_outcome(entry, arguments, state);
            let payload = entry.payload->0;
            &&& event is None
            &&& payload.cwd is Some && payload.cwd->0.len() > 0 ==> after.cwd == payload.cwd
            &&& payload.cwd is None || payload.cwd->0.len() == 0 ==> after.cwd == state.cwd
            &&& payload.id is Some && payload.id->0.len() > 0 ==> after.session_id == payload.id
            &&& payload.id is None || payload.id->0.len() == 0 ==> after.session_id
                == state.session_id
            &&& after == FileStateView { cwd: after.cwd, session_id: after.session_id, ..state }
        }),
{
}

/// An entry that gives no event and brings no metadata leaves what is known of its log as it was.
pub proof fn law_other_entries_change_nothing(
    entry: EntryView,
    arguments: Option<ArgumentsView>,
    state: FileStateView,
)
    requires
        entry.kind != Some("session_meta"@) || entry.payload is None,
        session_parser::entry_outcome(entry, arguments, state).1 is None,
    ensures
        session_parser::entry_outcome(entry, arguments, state).0 == state,
{
}

/// Whether a call is reported does not depend on its justification, nor, where it has an id, on
/// its command.
pub proof fn law_wording_decides_nothing(
    entry: EntryView,
    one: ArgumentsView,
    other: ArgumentsView,
    state: FileStateView,
)
    requires
        one.sandbox_permissions == other.sandbox_permissions,
        one.cmd == other.cmd || entry.payload is Some && entry.payload->0.call_id is Some
            && entry.payload->0.call_id->0.len() > 0,
    ensures
        session_parser::entry_outcome(entry, Some(one), state).1 is Some
            <==> session_parser::entry_outcome(entry, Some(other), state).1 is Some,
        session_parser::entry_outcome(entry, Some(one), state).0
            == session_parser::entry_outcome(entry, Some(other), state).0,
{
}

/// An object has a string under a key.
pub open spec fn has_text(value: Json, key: Seq<char>, content: Seq<char>) -> bool {
    value is Object && value->Object_0.contains_key(key) && value->Object_0[key] == Json::Text(
        content,
    )
}

/// An object has no string under a key: nothing at all, or something that is no string. What is no
/// object has none either.
pub open spec fn has_no_text(value: Json, key: Seq<char>) -> bool {
    value is Object && value->Object_0.contains_key(key) ==> !(value->Object_0[key] is Text)
}

/// What was taken out of a JSON value is its string under a key, and nothing where it has none.
pub open spec fn is_member(taken: Option<Seq<char>>, value: Json, key: Seq<char>) -> bool {
    match taken {
        Some(content) => has_text(value, key, content),
        None => has_no_text(value, key),
    }
}

/// A line is an entry exactly where it is a JSON object. Kind and time of the entry are the object's
/// own strings; it has a payload exactly where the member `payload` is an object, and every part of
/// the payload is the string of that name in it.
pub proof fn law_entries_are_json_objects(line: Seq<char>)
    ensures
        json::line_entry(line) is Some <==> json::document(line) is Some && json::document(line)->0
            is Object,
        json::line_entry(line) matches Some(entry) ==> {
            let value = json::document(line)->0;
            &&& is_member(entry.kind, value, "type"@)
            &&& is_member(entry.timestamp, value, "timestamp"@)
            &&& entry.payload is Some <==> value->Object_0.contains_key("payload"@)
                && value->Object_0["payload"@] is Object
            &&& entry.payload matches Some(payload) ==> {
                let inner = value->Object_0["payload"@];
                &&& is_member(payload.kind, inner, "type"@)
                &&& is_member(payload.id, inner, "id"@)
                &&& is_member(payload.cwd, inner, "cwd"@)
                &&& is_member(payload.name, inner, "name"@)
                &&& is_member(payload.call_id, inner, "call_id"@)
                &&& is_member(payload.arguments, inner, "arguments"@)
            }
        },
{
}

/// A text holds tool-call arguments exactly where it is a JSON document, and each of them is the
/// document's string of that name.
pub proof fn law_arguments_are_json_members(raw: Seq<char>)
    ensures
        json::text_arguments(raw) is Some <==> json::document(raw) is Some,
        json::text_arguments(raw) matches Some(arguments) ==> {
            let value = json::document(raw)->0;
            &&& is_member(arguments.sandbox_permissions, value, "sandbox_permissions"@)
            &&& is_member(arguments.justification, value, "justification"@)
            &&& is_member(arguments.cmd, value, "cmd"@)
        },
{
}

/// A line that is a JSON object does what its entry does, with the arguments that the text in the
/// member `arguments` of its payload holds. Any other line does nothing.
pub proof fn law_lines_do_what_their_entries_do(line: Seq<char>, state: FileStateView)
    ensures
        json::line_entry(line) is None ==> session_parser::line_outcome(line, state) == (
            state,
            None::<EventView>,
        ),
        json::line_entry(line) matches Some(entry) ==> {
            &&& entry.kind == Some("response_item"@) && entry.payload is Some
                && entry.payload->0.kind == Some("function_call"@)
                && entry.payload->0.arguments is Some ==> session_parser::line_outcome(line, state)
                == session_parser::entry_outcome(
                entry,
                json::text_arguments(entry.payload->0.arguments->0),
                state,
            )
            &&& !(entry.kind == Some("response_item"@) && entry.payload is Some
                && entry.payload->0.kind == Some("function_call"@)
                && entry.payload->0.arguments is Some) ==> session_parser::line_outcome(line, state)
                == session_parser::entry_outcome(entry, None, state)
        },
{
}

/// A line that is a JSON object for a tool call, whose arguments are a JSON document that asks for
/// escalated permissions, gives an event in a named session under a key that is not remembered.
pub proof fn law_escalated_line_is_reported(
    line: Seq<char>,
    raw: Seq<char>,
    key: Seq<char>,
    state: FileStateView,
)
    requires
        json::document(line) is Some,
        has_text(json::document(line)->0, "type"@, "response_item"@),
        json::document(line)->0->Object_0.contains_key("payload"@),
        has_text(json::document(line)->0->Object_0["payload"@], "type"@, "function_call"@),
        has_text(json::document(line)->0->Object_0["payload"@], "arguments"@, raw),
        json::document(raw) is Some,
        has_text(json::document(raw)->0, "sandbox_permissions"@, "require_escalated"@),
        names_its_session(state),
        is_key_of(
            key,
            json::line_entry(line)->0.timestamp,
            json::line_entry(line)->0.payload->0,
            json::text_arguments(raw)->0,
        ),
        !state.seen_calls.contains(key),
    ensures
        session_parser::line_outcome(line, state).1 is Some,
        session_parser::line_outcome(line, state).0.seen_calls.contains(key),
{
    law_entries_are_json_objects(line);
    law_arguments_are_json_members(raw);
    law_lines_do_what_their_entries_do(line, state);
    let entry = json::line_entry(line)->0;
    let arguments = json::text_arguments(raw)->0;
    law_escalation_is_reported(entry, arguments, key, state);
    let seen = session_parser::line_outcome(line, state).0.seen_calls;
    assert(seen[seen.len() - 1] == key);
}

/// Reading one more line adds what that line does, in the state that the lines before it left: its
/// event comes after theirs, and its state is the new one. A line that is no text ends the reading
/// with what came before it.
pub proof fn law_lines_are_read_in_order(state: FileStateView, lines: Seq<Seq<u8>>, line: Seq<u8>)
    ensures
        session_parser::read_lines(state, Seq::empty()).state == state,
        session_parser::read_lines(state, Seq::empty()).events == Seq::<EventView>::empty(),
        session_parser::read_lines(state, Seq::empty()).readable,
        ({
            let before = session_parser::read_lines(state, lines);
            let after = session_parser::read_lines(state, lines.push(line));
            let (left, event) = session_parser::line_outcome(utf8::decode_utf8(line), before.state);
            &&& after.readable <==> before.readable && utf8::valid_utf8(line)
            &&& after.readable ==> after.state == left
            &&& after.readable && event is Some ==> after.events == before.events.push(event->0)
            &&& after.readable && event is None ==> after.events == before.events
            &&& !after.readable ==> after.state == before.state && after.events == before.events
        }),
{
    assert(lines.push(line).drop_last() =~= lines);
}

/// The search for metadata over one more line: it is over once both pieces were found, and over for
/// good at a line that is no text. A `session_meta` line brings in the pieces that it has, and every
/// other line is passed over.
pub proof fn law_metadata_is_searched_in_order(
    state: FileStateView,
    lines: Seq<Seq<u8>>,
    line: Seq<u8>,
)
    ensures
        session_parser::hydrate_lines(state, Seq::empty()).state == state,
        session_parser::hydrate_lines(state, Seq::empty()).readable,
        !session_parser::hydrate_lines(state, Seq::empty()).complete,
        ({
            let before = session_parser::hydrate_lines(state, lines);
            let after = session_parser::hydrate_lines(state, lines.push(line));
            let entry = json::line_entry(utf8::decode_utf8(line));
            let brings = entry is Some && entry->0.kind == Some("session_meta"@)
                && entry->0.payload is Some;
            let payload = entry->0.payload->0;
            if before.complete || !before.readable {
                after == before
            } else if !utf8::valid_utf8(line) {
                !after.readable && !after.complete && after.state == before.state
            } else if !brings {
                after == before
            } else {
                &&& after.readable
                &&& after.state.cwd == (if payload.cwd is Some && payload.cwd->0.len() > 0 {
                    payload.cwd
                } else {
                    before.state.cwd
                })
                &&& after.state.session_id == (if payload.id is Some && payload.id->0.len() > 0 {
                    payload.id
                } else {
                    before.state.session_id
                })
                &&& after.state == FileStateView {
                    cwd: after.state.cwd,
                    session_id: after.state.session_id,
                    ..before.state
                }
                &&& after.complete <==> after.state.cwd is Some && after.state.session_id is Some
            }
        }),
{
    assert(lines.push(line).drop_last() =~= lines);
}

/// A log is searched for metadata exactly where its working directory or its session id is absent
/// or empty, and then line by line from its beginning; a log that names its session stays as it is.
pub proof fn law_unnamed_logs_are_searched(state: FileStateView, content: Seq<u8>)
    ensures
        names_its_session(state) ==> session_parser::hydrated(state, content).state == state
            && session_parser::hydrated(state, content).readable,
        !names_its_session(state) ==> session_parser::hydrated(state, content)
            == session_parser::hydrate_lines(state, text::split_crlf_lines(content, 10, 13)),
{
}

/// A log needs no visit exactly if it names its session and has the time and the size seen the last
/// time.
pub proof fn law_unchanged_logs(state: FileStateView, mtime_ns: u64, size: u64)
    ensures
        session_parser::is_unchanged(state, mtime_ns, size) <==> names_its_session(state)
            && state.mtime_ns == mtime_ns && state.size == size,
{
}

/// A visit to a log that names its session and has the time and the size seen the last time does
/// nothing. Every other visit searches for the metadata that is missing and reads from where the
/// last one stopped, or from the beginning where the log has become shorter than that. Where all of
/// it is text, the events are those of the lines read, and the visit is remembered with the end of
/// the log, its time and its size. Where some of it is not, no event is given, and what is
/// remembered of the last visit's end stays.
pub proof fn law_visits(state: FileStateView, content: Seq<u8>, mtime_ns: u64, size: u64)
    requires
        content.len() <= u64::MAX,
    ensures
        ({
            let visit = session_parser::processed(state, content, mtime_ns, size);
            let named = session_parser::hydrated(state, content);
            let start: int = if size < named.state.offset {
                0
            } else {
                named.state.offset as int
            };
            let tail = if start <= content.len() {
                content.skip(start)
            } else {
                Seq::empty()
            };
            let reading = session_parser::read_lines(named.state, text::split_lines(tail, 10));
            if names_its_session(state) && mtime_ns == state.mtime_ns && size == state.size {
                visit.state == state && visit.events == Some(Seq::<EventView>::empty())
            } else if !named.readable {
                visit.events is None && visit.state == named.state
            } else if !reading.readable {
                visit.events is None && visit.state == reading.state
            } else {
                &&& visit.events == Some(reading.events)
                &&& visit.state.offset == (if start <= content.len() {
                    content.len() as int
                } else {
                    start
                })
                &&& visit.state.mtime_ns == mtime_ns
                &&& visit.state.size == size
                &&& visit.state.cwd == reading.state.cwd
                &&& visit.state.session_id == reading.state.session_id
                &&& visit.state.seen_calls == reading.state.seen_calls
            }
        }),
{
}

} // verus!
