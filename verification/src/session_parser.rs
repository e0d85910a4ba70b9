//! Reading session logs: what each line does to what is known of its log, and which lines are
//! approval prompts.
use vstd::prelude::*;
use vstd::utf8;

use crate::json;
use crate::json::{Arguments, ArgumentsView, Entry, EntryView, Payload, PayloadView};
use crate::models;
use crate::models::{ApprovalEvent, EventView, FileState, FileStateView};
use crate::text;

verus! {

/// How many handled calls are remembered per log.
pub const MAX_SEEN_CALLS: usize = 100;

/// The byte that ends a line.
pub const NEWLINE: u8 = 0x0a;

/// The byte that may stand before it.
pub const CARRIAGE_RETURN: u8 = 0x0d;

/// What an optional event says.
pub open spec fn optional_event(event: Option<ApprovalEvent>) -> Option<EventView> {
    match event {
        Some(found) => Some(found@),
        None => None,
    }
}

/// What each of a list of events says.
pub open spec fn event_views(events: Seq<ApprovalEvent>) -> Seq<EventView> {
    events.map_values(|event: ApprovalEvent| event@)
}

/// The text, or the empty text where there is none.
pub open spec fn or_empty(value: Option<Seq<char>>) -> Seq<char> {
    match value {
        Some(content) => content,
        None => Seq::empty(),
    }
}

/// The text where it is more than white space, and the fallback otherwise.
pub open spec fn or_fallback(value: Option<Seq<char>>, fallback: Seq<char>) -> Seq<char> {
    match value {
        Some(content) => if text::is_blank(content) {
            fallback
        } else {
            content
        },
        None => fallback,
    }
}

/// The state of a log once the metadata that a payload brings is taken over. An empty value is
/// not taken over.
pub open spec fn with_metadata(state: FileStateView, payload: PayloadView) -> FileStateView {
    FileStateView {
        cwd: if models::is_known(payload.cwd) {
            payload.cwd
        } else {
            state.cwd
        },
        session_id: if models::is_known(payload.id) {
            payload.id
        } else {
            state.session_id
        },
        ..state
    }
}

/// The payload of an entry that brings session metadata.
pub open spec fn metadata_payload(entry: EntryView) -> Option<PayloadView> {
    if entry.kind == Some("session_meta"@) {
        entry.payload
    } else {
        None
    }
}

/// The raw arguments of an entry that is a tool call.
pub open spec fn call_arguments(entry: EntryView) -> Option<Seq<char>> {
    if entry.kind == Some("response_item"@) {
        match entry.payload {
            Some(payload) => if payload.kind == Some("function_call"@) {
                payload.arguments
            } else {
                None
            },
            None => None,
        }
    } else {
        None
    }
}

/// What identifies a tool call: its id, or where it has none its time, its name and its command.
pub open spec fn call_key(entry: EntryView, arguments: ArgumentsView) -> Seq<char> {
    let payload = entry.payload->0;
    if models::is_known(payload.call_id) {
        payload.call_id->0
    } else {
        or_empty(entry.timestamp) + ":"@ + or_empty(payload.name) + ":"@ + or_empty(arguments.cmd)
    }
}

/// An entry asks for approval when it is a tool call that asks for escalated permissions.
pub open spec fn asks_for_approval(entry: EntryView, arguments: Option<ArgumentsView>) -> bool {
    &&& call_arguments(entry) is Some
    &&& arguments matches Some(found) && found.sandbox_permissions == Some("require_escalated"@)
}

/// An entry is reported when it asks for approval, its session is known, and the same call was not
/// reported before.
pub open spec fn is_reported(
    entry: EntryView,
    arguments: Option<ArgumentsView>,
    state: FileStateView,
) -> bool {
    &&& asks_for_approval(entry, arguments)
    &&& !state.metadata_missing()
    &&& !state.seen_calls.contains(call_key(entry, arguments->0))
}

/// The remembered calls once one more was handled: the latest ones, up to the limit.
pub open spec fn remembered(seen: Seq<Seq<char>>, key: Seq<char>) -> Seq<Seq<char>> {
    let all = seen.push(key);
    if all.len() > MAX_SEEN_CALLS {
        all.skip(all.len() - MAX_SEEN_CALLS)
    } else {
        all
    }
}

/// The event that reports a tool call.
pub open spec fn approval_event(
    entry: EntryView,
    arguments: ArgumentsView,
    state: FileStateView,
) -> EventView {
    EventView {
        event: "approval.requested"@,
        session_id: state.session_id->0,
        cwd: state.cwd->0,
        timestamp: or_empty(entry.timestamp),
        message: or_fallback(arguments.justification, "Approval required"@),
        command: or_fallback(arguments.cmd, "Command requires approval"@),
    }
}

/// What an entry does: the state that it leaves and the event that it gives.
pub open spec fn entry_outcome(
    entry: EntryView,
    arguments: Option<ArgumentsView>,
    state: FileStateView,
) -> (FileStateView, Option<EventView>) {
    if metadata_payload(entry) is Some {
        (with_metadata(state, metadata_payload(entry)->0), None)
    } else if is_reported(entry, arguments, state) {
        (
            FileStateView {
                seen_calls: remembered(state.seen_calls, call_key(entry, arguments->0)),
                ..state
            },
            Some(approval_event(entry, arguments->0, state)),
        )
    } else {
        (state, None)
    }
}

/// The arguments of the tool call that an entry is.
pub open spec fn entry_arguments(entry: EntryView) -> Option<ArgumentsView> {
    match call_arguments(entry) {
        Some(raw) => json::text_arguments(raw),
        None => None,
    }
}

/// What a log line does. A line that is no JSON object does nothing.
pub open spec fn line_outcome(line: Seq<char>, state: FileStateView) -> (
    FileStateView,
    Option<EventView>,
) {
    match json::line_entry(line) {
        Some(entry) => entry_outcome(entry, entry_arguments(entry), state),
        None => (state, None),
    }
}

/// The text of an optional string, or the empty text.
fn text_or_empty(value: &Option<String>) -> (result: String)
    ensures
        result@ == or_empty(text::optional_text(*value)),
{
    match value {
        Some(content) => content.clone(),
        None => String::new(),
    }
}

/// The text of an optional string that is more than white space, or the fallback.
fn text_or_fallback(value: &Option<String>, fallback: &str) -> (result: String)
    ensures
        result@ == or_fallback(text::optional_text(*value), fallback@),
{
    match value {
        Some(content) => if text::blank(content.as_str()) {
            fallback.to_string()
        } else {
            content.clone()
        },
        None => fallback.to_string(),
    }
}

/// Takes over the metadata that a payload brings.
fn take_metadata(payload: &Payload, file_state: &mut FileState)
    ensures
        final(file_state)@ == with_metadata(old(file_state)@, payload@),
{
    if models::known(&payload.cwd) {
        file_state.cwd = payload.cwd.clone();
    }
    if models::known(&payload.id) {
        file_state.session_id = payload.id.clone();
    }
    assert(file_state@ =~= with_metadata(old(file_state)@, payload@));
}

/// The raw arguments of an entry that is a tool call.
fn raw_arguments(entry: &Entry) -> (result: Option<&String>)
    ensures
        result is Some <==> call_arguments(entry@) is Some,
        result matches Some(raw) ==> call_arguments(entry@) == Some(raw@),
{
    if !text::holds_text(&entry.kind, "response_item") {
        return None;
    }
    match &entry.payload {
        Some(payload) => {
            if text::holds_text(&payload.kind, "function_call") {
                match &payload.arguments {
                    Some(raw) => Some(raw),
                    None => None,
                }
            } else {
                None
            }
        },
        None => None,
    }
}

/// What identifies a tool call.
fn key_of_call(entry: &Entry, payload: &Payload, arguments: &Arguments) -> (key: String)
    requires
        entry@.payload == Some(payload@),
    ensures
        key@ == call_key(entry@, arguments@),
{
    match &payload.call_id {
        Some(call_id) => {
            if !call_id.as_str().is_empty() {
                return call_id.clone();
            }
        },
        None => {},
    }
    text_or_empty(&entry.timestamp).concat(":").concat(
        text_or_empty(&payload.name).as_str(),
    ).concat(":").concat(text_or_empty(&arguments.cmd).as_str())
}

/// Remembers a handled call, and forgets the oldest beyond the limit.
fn remember(seen_calls: &mut Vec<String>, key: String)
    ensures
        text::texts(final(seen_calls)@) == remembered(text::texts(old(seen_calls)@), key@),
{
    seen_calls.push(key);
    assert(text::texts(seen_calls@) =~= text::texts(old(seen_calls)@).push(key@));
    if seen_calls.len() > MAX_SEEN_CALLS {
        let excess: usize = seen_calls.len() - MAX_SEEN_CALLS;
        let ghost all = seen_calls@;
        let mut kept = seen_calls.split_off(excess);
        seen_calls.clear();
        seen_calls.append(&mut kept);
        assert(text::texts(seen_calls@) =~= text::texts(all).skip(excess as int));
    }
}

/// What a parsed entry does to the state of its log; `arguments` are those of the tool call that
/// the entry is, if it is one.
pub fn apply_entry(
    entry: &Entry,
    arguments: &Option<Arguments>,
    file_state: &mut FileState,
) -> (event: Option<ApprovalEvent>)
    ensures
        (final(file_state)@, optional_event(event)) == entry_outcome(
            entry@,
            match *arguments {
                Some(found) => Some(found@),
                None => None,
            },
            old(file_state)@,
        ),
{
    if text::holds_text(&entry.kind, "session_meta") {
        match &entry.payload {
            Some(payload) => {
                take_metadata(payload, file_state);
            },
            None => {},
        }
        proof {
            reveal_strlit("session_meta");
            reveal_strlit("response_item");
            assert("session_meta"@.len() != "response_item"@.len());
        }
        return None;
    }
    if raw_arguments(entry).is_none() {
        return None;
    }
    let payload = match &entry.payload {
        Some(payload) => payload,
        None => {
            return None;
        },
    };
    let arguments = match arguments {
        Some(arguments) => arguments,
        None => {
            return None;
        },
    };
    if !text::holds_text(&arguments.sandbox_permissions, "require_escalated") {
        return None;
    }
    if file_state.metadata_missing() {
        return None;
    }
    let key = key_of_call(entry, payload, arguments);
    if text::list_contains(&file_state.seen_calls, key.as_str()) {
        return None;
    }
    let event = ApprovalEvent {
        event: "approval.requested",
        session_id: text_or_empty(&file_state.session_id),
        cwd: text_or_empty(&file_state.cwd),
        timestamp: text_or_empty(&entry.timestamp),
        message: text_or_fallback(&arguments.justification, "Approval required"),
        command: text_or_fallback(&arguments.cmd, "Command requires approval"),
    };
    remember(&mut file_state.seen_calls, key);
    assert(event@ =~= approval_event(entry@, arguments@, old(file_state)@));
    assert(file_state@ =~= entry_outcome(entry@, Some(arguments@), old(file_state)@).0);
    Some(event)
}

/// Handles one log line.
pub fn handle_entry(line: &str, file_state: &mut FileState) -> (event: Option<ApprovalEvent>)
    ensures
        (final(file_state)@, optional_event(event)) == line_outcome(line@, old(file_state)@),
{
    let entry = match json::parse_json_line(line) {
        Some(entry) => entry,
        None => {
            return None;
        },
    };
    let arguments = match raw_arguments(&entry) {
        Some(raw) => json::parse_arguments(raw.as_str()),
        None => None,
    };
    apply_entry(&entry, &arguments, file_state)
}

/// Why a log could not be read.
#[derive(Debug)]
pub enum SessionError {
    /// A line of the log is not UTF-8.
    InvalidUtf8 { path: String },
}

/// What a `SessionError` says.
pub enum SessionProblem {
    InvalidUtf8 { path: Seq<char> },
}

impl View for SessionError {
    type V = SessionProblem;

    open spec fn view(&self) -> SessionProblem {
        match self {
            SessionError::InvalidUtf8 { path } => SessionProblem::InvalidUtf8 { path: path@ },
        }
    }
}

impl SessionError {
    /// Why a log could not be read, in words: which log it is.
    pub fn message(&self) -> (message: String)
        ensures
            message@ == (match self@ {
                SessionProblem::InvalidUtf8 { path } => "failed to read "@ + path,
            }),
    {
        match self {
            SessionError::InvalidUtf8 { path } => "failed to read ".to_string().concat(
                path.as_str(),
            ),
        }
    }
}

/// How far the search for a log's metadata came: the state so far, whether the search is over, and
/// whether every line read was text.
#[verifier::ext_equal]
pub struct Hydration {
    pub state: FileStateView,
    pub complete: bool,
    pub readable: bool,
}

/// The search for metadata after one more line. It is over once a working directory and a session
/// id are there.
pub open spec fn hydrate_line(progress: Hydration, line: Seq<u8>) -> Hydration {
    if progress.complete || !progress.readable {
        progress
    } else if !utf8::valid_utf8(line) {
        Hydration { readable: false, ..progress }
    } else {
        match json::line_entry(utf8::decode_utf8(line)) {
            Some(entry) => match metadata_payload(entry) {
                Some(payload) => {
                    let state = with_metadata(progress.state, payload);
                    Hydration {
                        state,
                        complete: state.cwd is Some && state.session_id is Some,
                        ..progress
                    }
                },
                None => progress,
            },
            None => progress,
        }
    }
}

/// The search for metadata after a list of lines.
pub open spec fn hydrate_lines(state: FileStateView, lines: Seq<Seq<u8>>) -> Hydration
    decreases lines.len(),
{
    if lines.len() == 0 {
        Hydration { state, complete: false, readable: true }
    } else {
        hydrate_line(hydrate_lines(state, lines.drop_last()), lines.last())
    }
}

/// The search for metadata in a whole log. Where nothing is missing nothing is searched.
pub open spec fn hydrated(state: FileStateView, content: Seq<u8>) -> Hydration {
    if state.metadata_missing() {
        hydrate_lines(state, text::split_crlf_lines(content, NEWLINE, CARRIAGE_RETURN))
    } else {
        Hydration { state, complete: true, readable: true }
    }
}

/// A search that is over, or that met a line that is no text, is not changed by further lines.
proof fn lemma_hydration_stops(state: FileStateView, lines: Seq<Seq<u8>>, more: Seq<Seq<u8>>)
    requires
        hydrate_lines(state, lines).complete || !hydrate_lines(state, lines).readable,
    ensures
        hydrate_lines(state, lines + more) == hydrate_lines(state, lines),
    decreases more.len(),
{
    if more.len() == 0 {
        assert(lines + more =~= lines);
    } else {
        lemma_hydration_stops(state, lines, more.drop_last());
        assert((lines + more).drop_last() =~= lines + more.drop_last());
    }
}

/// Fills in the working directory and the session id of a log from the session metadata in it.
///
/// `content` is the whole log at `path`. Lines are read in order until both are there.
pub fn hydrate_session_metadata(
    path: &str,
    content: &[u8],
    file_state: &mut FileState,
) -> (result: Result<(), SessionError>)
    ensures
        final(file_state)@ == hydrated(old(file_state)@, content@).state,
        result is Ok <==> hydrated(old(file_state)@, content@).readable,
        result matches Err(error) ==> error@ == (SessionProblem::InvalidUtf8 {
            path: path@,
        }),
{
    if !file_state.metadata_missing() {
        return Ok(());
    }
    let ghost initial = file_state@;
    let ghost all = text::split_crlf_lines(content@, NEWLINE, CARRIAGE_RETURN);
    let ghost mut done: Seq<Seq<u8>> = Seq::empty();
    let mut start: usize = 0;
    assert(content@.skip(0) =~= content@);
    assert(all =~= done + all);
    while start < content.len()
        invariant
            start <= content@.len(),
            all == text::split_crlf_lines(content@, NEWLINE, CARRIAGE_RETURN),
            all == done + text::split_crlf_lines(
                content@.skip(start as int),
                NEWLINE,
                CARRIAGE_RETURN,
            ),
            initial == old(file_state)@,
            initial.metadata_missing(),
            hydrate_lines(initial, done) == (Hydration {
                state: file_state@,
                complete: false,
                readable: true,
            }),
        decreases content@.len() - start,
    {
        let ghost rest = content@.skip(start as int);
        let end: usize = text::find_byte(content, start, NEWLINE);
        let mut body_end: usize = end;
        if end < content.len() && end > start && content[end - 1] == CARRIAGE_RETURN {
            body_end = end - 1;
        }
        let line = vstd::slice::slice_subrange(content, start, body_end);
        let next: usize = if end < content.len() {
            end + 1
        } else {
            end
        };
        let ghost after = text::split_crlf_lines(
            content@.skip(next as int),
            NEWLINE,
            CARRIAGE_RETURN,
        );
        proof {
            if end < content@.len() {
                assert(rest.take(end - start) =~= content@.subrange(start as int, end as int));
                assert(text::strip_return(rest.take(end - start), CARRIAGE_RETURN) =~= line@);
                assert(rest.skip(end - start + 1) =~= content@.skip(next as int));
            } else {
                assert(rest =~= line@);
                assert(content@.skip(next as int).len() == 0);
            }
            assert(text::split_crlf_lines(rest, NEWLINE, CARRIAGE_RETURN) =~= seq![line@] + after);
            assert(all =~= done.push(line@) + after);
            assert(done.push(line@).drop_last() =~= done);
        }
        let decoded = match text::decoded(line) {
            Some(decoded) => decoded,
            None => {
                proof {
                    lemma_hydration_stops(initial, done.push(line@), after);
                }
                return Err(SessionError::InvalidUtf8 { path: path.to_string() });
            },
        };
        match json::parse_json_line(decoded) {
            Some(entry) => {
                if text::holds_text(&entry.kind, "session_meta") {
                    match &entry.payload {
                        Some(payload) => {
                            take_metadata(payload, file_state);
                            if file_state.cwd.is_some() && file_state.session_id.is_some() {
                                proof {
                                    lemma_hydration_stops(initial, done.push(line@), after);
                                }
                                return Ok(());
                            }
                        },
                        None => {},
                    }
                }
            },
            None => {},
        }
        proof {
            done = done.push(line@);
        }
        start = next;
    }
    assert(content@.skip(start as int).len() == 0);
    assert(done =~= all);
    Ok(())
}

/// How far the reading of a log came: the state so far, the events so far, and whether every line
/// read was text.
#[verifier::ext_equal]
pub struct Progress {
    pub state: FileStateView,
    pub events: Seq<EventView>,
    pub readable: bool,
}

impl Progress {
    /// The events that reading gives: none at all where it met a line that is no text.
    pub open spec fn given_events(self) -> Option<Seq<EventView>> {
        if self.readable {
            Some(self.events)
        } else {
            None
        }
    }
}

/// The reading of a log after one more line. Reading stops at a line that is no text.
pub open spec fn read_line(progress: Progress, line: Seq<u8>) -> Progress {
    if !progress.readable {
        progress
    } else if !utf8::valid_utf8(line) {
        Progress { readable: false, ..progress }
    } else {
        let (state, event) = line_outcome(utf8::decode_utf8(line), progress.state);
        Progress {
            state,
            events: match event {
                Some(found) => progress.events.push(found),
                None => progress.events,
            },
            readable: true,
        }
    }
}

/// The reading of a log after a list of lines.
pub open spec fn read_lines(state: FileStateView, lines: Seq<Seq<u8>>) -> Progress
    decreases lines.len(),
{
    if lines.len() == 0 {
        Progress { state, events: Seq::empty(), readable: true }
    } else {
        read_line(read_lines(state, lines.drop_last()), lines.last())
    }
}

/// Where reading starts: where it stopped the last time, or at the beginning of a log that has
/// become shorter than that.
pub open spec fn read_start(state: FileStateView, size: u64) -> u64 {
    if size < state.offset {
        0
    } else {
        state.offset
    }
}

/// The part of a log that was not read yet.
pub open spec fn unread(content: Seq<u8>, start: u64) -> Seq<u8> {
    if start <= content.len() {
        content.skip(start as int)
    } else {
        Seq::empty()
    }
}

/// What processing a log does: the state that it leaves, and the events that it gives unless a
/// line is no text.
#[verifier::ext_equal]
pub struct Processed {
    pub state: FileStateView,
    pub events: Option<Seq<EventView>>,
}

/// A log whose metadata is known and whose time and size are those seen the last time needs no
/// reading.
pub open spec fn is_unchanged(state: FileStateView, mtime_ns: u64, size: u64) -> bool {
    !state.metadata_missing() && mtime_ns == state.mtime_ns && size == state.size
}

/// What processing a log does that has the given content, time and size.
pub open spec fn processed(
    state: FileStateView,
    content: Seq<u8>,
    mtime_ns: u64,
    size: u64,
) -> Processed {
    let hydration = hydrated(state, content);
    let start = read_start(hydration.state, size);
    let tail = unread(content, start);
    let progress = read_lines(hydration.state, text::split_lines(tail, NEWLINE));
    if is_unchanged(state, mtime_ns, size) {
        Processed { state, events: Some(Seq::empty()) }
    } else if !hydration.readable {
        Processed { state: hydration.state, events: None }
    } else if !progress.readable {
        Processed { state: progress.state, events: None }
    } else {
        Processed {
            state: FileStateView {
                offset: (start + tail.len()) as u64,
                mtime_ns,
                size,
                ..progress.state
            },
            events: Some(progress.events),
        }
    }
}

/// What reading some lines, and then some more from there on, comes to.
pub open spec fn resumed(first: Progress, second: Progress) -> Progress {
    if first.readable {
        Progress { events: first.events + second.events, ..second }
    } else {
        first
    }
}

/// Reading a log in two goes gives the same events in the same order, and leaves the same state,
/// as reading it in one.
pub proof fn law_reading_resumes(state: FileStateView, lines: Seq<Seq<u8>>, more: Seq<Seq<u8>>)
    ensures
        read_lines(state, lines + more) == resumed(
            read_lines(state, lines),
            read_lines(read_lines(state, lines).state, more),
        ),
    decreases more.len(),
{
    let first = read_lines(state, lines);
    if more.len() == 0 {
        assert(lines + more =~= lines);
        assert(first.events + Seq::<EventView>::empty() =~= first.events);
    } else {
        law_reading_resumes(state, lines, more.drop_last());
        assert((lines + more).drop_last() =~= lines + more.drop_last());
        let second = read_lines(first.state, more.drop_last());
        if first.readable && second.readable && utf8::valid_utf8(more.last()) {
            match line_outcome(utf8::decode_utf8(more.last()), second.state).1 {
                Some(event) => {
                    assert((first.events + second.events).push(event) =~= first.events
                        + second.events.push(event));
                },
                None => {},
            }
        }
    }
}

/// Reads the lines of `content` from `start` on.
fn read_from(
    path: &str,
    content: &[u8],
    start: usize,
    file_state: &mut FileState,
) -> (result: Result<Vec<ApprovalEvent>, SessionError>)
    requires
        start <= content@.len(),
    ensures
        ({
            let progress = read_lines(
                old(file_state)@,
                text::split_lines(content@.skip(start as int), NEWLINE),
            );
            &&& final(file_state)@ == progress.state
            &&& result is Ok <==> progress.readable
            &&& result matches Ok(events) ==> event_views(events@) == progress.events
        }),
        result matches Err(error) ==> error@ == (SessionProblem::InvalidUtf8 {
            path: path@,
        }),
{
    let mut events: Vec<ApprovalEvent> = Vec::new();
    let mut position: usize = start;
    let ghost initial = file_state@;
    let ghost all = text::split_lines(content@.skip(start as int), NEWLINE);
    let ghost mut done: Seq<Seq<u8>> = Seq::empty();
    assert(all =~= done + all);
    assert(event_views(events@) =~= Seq::empty());
    while position < content.len()
        invariant
            start <= position <= content@.len(),
            all == text::split_lines(content@.skip(start as int), NEWLINE),
            all == done + text::split_lines(content@.skip(position as int), NEWLINE),
            initial == old(file_state)@,
            read_lines(initial, done) == (Progress {
                state: file_state@,
                events: event_views(events@),
                readable: true,
            }),
        decreases content@.len() - position,
    {
        let ghost rest = content@.skip(position as int);
        let end: usize = text::find_byte(content, position, NEWLINE);
        let line = vstd::slice::slice_subrange(content, position, end);
        let next: usize = if end < content.len() {
            end + 1
        } else {
            end
        };
        let ghost after = text::split_lines(content@.skip(next as int), NEWLINE);
        proof {
            if end < content@.len() {
                assert(rest.take(end - position) =~= line@);
                assert(rest.skip(end - position + 1) =~= content@.skip(next as int));
            } else {
                assert(rest =~= line@);
                assert(content@.skip(next as int).len() == 0);
            }
            assert(text::split_lines(rest, NEWLINE) =~= seq![line@] + after);
            assert(all =~= done.push(line@) + after);
            assert(done.push(line@).drop_last() =~= done);
        }
        let decoded = match text::decoded(line) {
            Some(decoded) => decoded,
            None => {
                proof {
                    law_reading_resumes(initial, done.push(line@), after);
                }
                return Err(SessionError::InvalidUtf8 { path: path.to_string() });
            },
        };
        let ghost before = event_views(events@);
        match handle_entry(decoded, file_state) {
            Some(event) => {
                events.push(event);
                assert(event_views(events@) =~= before.push(event@));
            },
            None => {},
        }
        proof {
            done = done.push(line@);
        }
        position = next;
    }
    assert(content@.skip(position as int).len() == 0);
    assert(done =~= all);
    Ok(events)
}

/// Processes a log: fills in its metadata, reads the lines that were not read yet, and gives the
/// approval prompts among them in order.
///
/// `content` is the whole log at `path`, `mtime_ns` and `file_size` its time and size as they were looked up
/// before it was read.
pub fn process_file(
    path: &str,
    content: &[u8],
    mtime_ns: u64,
    file_size: u64,
    file_state: &mut FileState,
) -> (result: Result<Vec<ApprovalEvent>, SessionError>)
    ensures
        final(file_state)@ == processed(old(file_state)@, content@, mtime_ns, file_size).state,
        result is Ok <==> processed(old(file_state)@, content@, mtime_ns, file_size).events is Some,
        result matches Ok(events) ==> processed(
            old(file_state)@,
            content@,
            mtime_ns,
            file_size,
        ).events == Some(event_views(events@)),
        result matches Err(error) ==> error@ == (SessionProblem::InvalidUtf8 {
            path: path@,
        }),
{
    if !file_state.metadata_missing() && mtime_ns == file_state.mtime_ns && file_size
        == file_state.size {
        let events: Vec<ApprovalEvent> = Vec::new();
        assert(event_views(events@) =~= Seq::empty());
        return Ok(events);
    }
    match hydrate_session_metadata(path, content, file_state) {
        Ok(()) => {},
        Err(error) => {
            return Err(error);
        },
    }
    let mut offset: u64 = file_state.offset;
    if file_size < offset {
        offset = 0;
    }
    let ghost hydration = hydrated(old(file_state)@, content@);
    let length: usize = content.len();
    let start: usize = if offset <= length as u64 {
        offset as usize
    } else {
        length
    };
    proof {
        assert(unread(content@, offset) =~= content@.skip(start as int));
    }
    match read_from(path, content, start, file_state) {
        Ok(events) => {
            file_state.offset = if offset <= length as u64 {
                length as u64
            } else {
                offset
            };
            file_state.mtime_ns = mtime_ns;
            file_state.size = file_size;
            assert(file_state@ =~= processed(
                old(file_state)@,
                content@,
                mtime_ns,
                file_size,
            ).state);
            Ok(events)
        },
        Err(error) => Err(error),
    }
}

/// The time and size by which a change of a log is noticed. The time is in nanoseconds since the
/// epoch, cut to 64 bits; a log without one counts as last changed at the epoch.
pub fn current_file_signature(modified_ns: Option<u128>, size: u64) -> (signature: (u64, u64))
    ensures
        signature.1 == size,
        modified_ns matches Some(nanos) ==> signature.0 == nanos % 0x1_0000_0000_0000_0000,
        modified_ns is None ==> signature.0 == 0,
{
    let mtime_ns: u64 = match modified_ns {
        Some(nanos) => (nanos % 0x1_0000_0000_0000_0000) as u64,
        None => 0,
    };
    (mtime_ns, size)
}

} // verus!
