//! What holds of the reading of session logs as a whole.
use vstd::prelude::*;
use vstd::utf8;

use crate::json;
use crate::json::{ArgumentsView, EntryView};
use crate::models::{EventView, FileStateView};
use crate::session_parser;
use crate::text;

verus! {

/// Handling the same entry a second time gives no event and changes nothing.
pub proof fn law_repeated_entry_is_silent(
    entry: EntryView,
    arguments: Option<ArgumentsView>,
    state: FileStateView,
)
    ensures
        ({
            let left = session_parser::entry_outcome(entry, arguments, state).0;
            session_parser::entry_outcome(entry, arguments, left) == (left, None::<EventView>)
        }),
{
    let left = session_parser::entry_outcome(entry, arguments, state).0;
    if session_parser::metadata_payload(entry) is Some {
        assert(session_parser::with_metadata(left, session_parser::metadata_payload(entry)->0)
            =~= left);
    } else if session_parser::is_reported(entry, arguments, state) {
        let key = session_parser::call_key(entry, arguments->0);
        lemma_remembered_keeps_the_latest(state.seen_calls, key);
    }
}

/// Handling the same log line a second time gives no event and changes nothing.
pub proof fn law_repeated_line_is_silent(line: Seq<char>, state: FileStateView)
    ensures
        ({
            let left = session_parser::line_outcome(line, state).0;
            session_parser::line_outcome(line, left) == (left, None::<EventView>)
        }),
{
    match json::line_entry(line) {
        Some(entry) => {
            law_repeated_entry_is_silent(entry, session_parser::entry_arguments(entry), state);
        },
        None => {},
    }
}

/// The call handled last is always remembered, and it is the last one remembered.
proof fn lemma_remembered_keeps_the_latest(seen: Seq<Seq<char>>, key: Seq<char>)
    ensures
        session_parser::remembered(seen, key).len() > 0,
        session_parser::remembered(seen, key).last() == key,
        session_parser::remembered(seen, key).contains(key),
{
    let all = session_parser::remembered(seen, key);
    assert(all[all.len() - 1] == key);
}

/// An event is given for every tool call that asks for escalated permissions in a known session and
/// is not remembered as reported, and for nothing else.
pub proof fn law_escalated_calls_and_no_others_are_reported(
    entry: EntryView,
    arguments: Option<ArgumentsView>,
    state: FileStateView,
)
    ensures
        session_parser::entry_outcome(entry, arguments, state).1 is Some <==> {
            &&& session_parser::asks_for_approval(entry, arguments)
            &&& !state.metadata_missing()
            &&& !state.seen_calls.contains(session_parser::call_key(entry, arguments->0))
        },
{
    reveal_strlit("session_meta");
    reveal_strlit("response_item");
    assert("session_meta"@.len() != "response_item"@.len());
}

/// Every event is an `approval.requested` event that names a session and a working directory, and
/// whose message and command are more than white space.
pub proof fn law_events_are_complete(
    entry: EntryView,
    arguments: Option<ArgumentsView>,
    state: FileStateView,
)
    ensures
        session_parser::entry_outcome(entry, arguments, state).1 matches Some(event) ==> {
            &&& event.event == "approval.requested"@
            &&& event.session_id.len() > 0
            &&& event.cwd.len() > 0
            &&& !text::is_blank(event.message)
            &&& !text::is_blank(event.command)
        },
{
    reveal_strlit("Approval required");
    reveal_strlit("Command requires approval");
    assert(!text::is_white_space("Approval required"@[0]));
    assert(!text::is_white_space("Command requires approval"@[0]));
}

/// What every log line keeps: no more calls are remembered than the limit, none of them twice, and
/// no piece of metadata is empty.
pub open spec fn is_sound(state: FileStateView) -> bool {
    &&& state.seen_calls.len() <= session_parser::MAX_SEEN_CALLS
    &&& state.seen_calls.no_duplicates()
    &&& state.cwd != Some(Seq::<char>::empty())
    &&& state.session_id != Some(Seq::<char>::empty())
}

/// A log of which nothing is known is sound.
pub proof fn law_fresh_state_is_sound()
    ensures
        is_sound(FileStateView::fresh()),
{
}

/// Every log line keeps the state sound.
pub proof fn law_lines_keep_state_sound(line: Seq<char>, state: FileStateView)
    requires
        is_sound(state),
    ensures
        is_sound(session_parser::line_outcome(line, state).0),
{
    match json::line_entry(line) {
        Some(entry) => {
            let arguments = session_parser::entry_arguments(entry);
            if session_parser::metadata_payload(entry) is None && session_parser::is_reported(
                entry,
                arguments,
                state,
            ) {
                let key = session_parser::call_key(entry, arguments->0);
                let all = state.seen_calls.push(key);
                assert(all.no_duplicates()) by {
                    assert forall|i: int, j: int| 0 <= i < all.len() && 0 <= j < all.len() && i
                        != j implies all[i] != all[j] by {
                        if i < state.seen_calls.len() && j < state.seen_calls.len() {
                            assert(state.seen_calls[i] != state.seen_calls[j]);
                        } else if i < state.seen_calls.len() {
                            assert(state.seen_calls.contains(state.seen_calls[i]));
                        } else {
                            assert(state.seen_calls.contains(state.seen_calls[j]));
                        }
                    }
                }
            }
        },
        None => {},
    }
}

/// Processing a log keeps its state sound, also where the log turns out unreadable.
pub proof fn law_processing_keeps_state_sound(
    state: FileStateView,
    content: Seq<u8>,
    mtime_ns: u64,
    size: u64,
)
    requires
        is_sound(state),
    ensures
        is_sound(session_parser::processed(state, content, mtime_ns, size).state),
{
    lemma_hydration_keeps_state_sound(
        state,
        text::split_crlf_lines(
            content,
            session_parser::NEWLINE,
            session_parser::CARRIAGE_RETURN,
        ),
    );
    let hydrated = session_parser::hydrated(state, content).state;
    let start = session_parser::read_start(hydrated, size);
    lemma_reading_keeps_state_sound(
        hydrated,
        text::split_lines(session_parser::unread(content, start), session_parser::NEWLINE),
    );
}

/// The search for metadata keeps a log's state sound.
pub proof fn law_hydration_keeps_state_sound(state: FileStateView, content: Seq<u8>)
    requires
        is_sound(state),
    ensures
        is_sound(session_parser::hydrated(state, content).state),
{
    lemma_hydration_keeps_state_sound(
        state,
        text::split_crlf_lines(
            content,
            session_parser::NEWLINE,
            session_parser::CARRIAGE_RETURN,
        ),
    );
}

proof fn lemma_hydration_keeps_state_sound(state: FileStateView, lines: Seq<Seq<u8>>)
    requires
        is_sound(state),
    ensures
        is_sound(session_parser::hydrate_lines(state, lines).state),
    decreases lines.len(),
{
    if lines.len() > 0 {
        lemma_hydration_keeps_state_sound(state, lines.drop_last());
    }
}

proof fn lemma_reading_keeps_state_sound(state: FileStateView, lines: Seq<Seq<u8>>)
    requires
        is_sound(state),
    ensures
        is_sound(session_parser::read_lines(state, lines).state),
    decreases lines.len(),
{
    if lines.len() > 0 {
        lemma_reading_keeps_state_sound(state, lines.drop_last());
        law_lines_keep_state_sound(
            utf8::decode_utf8(lines.last()),
            session_parser::read_lines(state, lines.drop_last()).state,
        );
    }
}

/// A call that was just reported is still remembered, and so not reported again, while fewer
/// further lines are read than calls are remembered.
pub proof fn law_reported_call_stays_remembered(
    state: FileStateView,
    key: Seq<char>,
    lines: Seq<Seq<u8>>,
)
    requires
        state.seen_calls.len() > 0,
        state.seen_calls.last() == key,
        lines.len() < session_parser::MAX_SEEN_CALLS,
    ensures
        session_parser::read_lines(state, lines).state.seen_calls.contains(key),
{
    let position = lemma_age_of_call(state, key, lines);
    let seen = session_parser::read_lines(state, lines).state.seen_calls;
    assert(seen[position] == key);
}

/// The newest call moves back by at most one place per line.
proof fn lemma_age_of_call(state: FileStateView, key: Seq<char>, lines: Seq<Seq<u8>>) -> (position:
    int)
    requires
        state.seen_calls.len() > 0,
        state.seen_calls.last() == key,
        lines.len() < session_parser::MAX_SEEN_CALLS,
    ensures
        ({
            let seen = session_parser::read_lines(state, lines).state.seen_calls;
            &&& 0 <= position < seen.len()
            &&& seen.len() - position <= lines.len() + 1
            &&& seen[position] == key
        }),
    decreases lines.len(),
{
    if lines.len() == 0 {
        state.seen_calls.len() - 1
    } else {
        let before = session_parser::read_lines(state, lines.drop_last());
        let position = lemma_age_of_call(state, key, lines.drop_last());
        let after = session_parser::read_lines(state, lines);
        let grown = before.state.seen_calls.len() + 1;
        if after.state.seen_calls == before.state.seen_calls {
            position
        } else if grown > session_parser::MAX_SEEN_CALLS {
            position - (grown - session_parser::MAX_SEEN_CALLS)
        } else {
            position
        }
    }
}

/// Visiting a log again that has not changed gives no events; where its metadata is known it
/// changes nothing at all.
pub proof fn law_second_visit_is_silent(state: FileStateView, content: Seq<u8>, mtime_ns: u64)
    requires
        content.len() <= u64::MAX,
        session_parser::processed(state, content, mtime_ns, content.len() as u64).events is Some,
    ensures
        ({
            let size = content.len() as u64;
            let first = session_parser::processed(state, content, mtime_ns, size);
            let second = session_parser::processed(first.state, content, mtime_ns, size);
            &&& second.events == Some(Seq::<EventView>::empty())
            &&& !first.state.metadata_missing() ==> second == (session_parser::Processed {
                state: first.state,
                events: Some(Seq::<EventView>::empty()),
            })
        }),
{
    let size = content.len() as u64;
    let first = session_parser::processed(state, content, mtime_ns, size);
    if first.state.metadata_missing() {
        let all = text::split_crlf_lines(
            content,
            session_parser::NEWLINE,
            session_parser::CARRIAGE_RETURN,
        );
        let hydrated = session_parser::hydrated(state, content).state;
        let start = session_parser::read_start(hydrated, size);
        lemma_hydration_keeps_position(state, all);
        lemma_hydration_keeps_position(first.state, all);
        lemma_reading_keeps_metadata(
            hydrated,
            text::split_lines(session_parser::unread(content, start), session_parser::NEWLINE),
        );
        lemma_complete_search_found_both(state, all);
        lemma_second_search_is_readable(state, first.state, all);
        assert(session_parser::hydrated(first.state, content).state.offset == size);
        assert(session_parser::unread(content, size).len() == 0);
        let lines = text::split_lines(
            session_parser::unread(content, size),
            session_parser::NEWLINE,
        );
        assert(lines.len() == 0);
        assert(session_parser::read_lines(
            session_parser::hydrated(first.state, content).state,
            lines,
        ).events =~= Seq::empty());
    }
}

/// Reading lines takes away no piece of metadata, and leaves a known one known.
proof fn lemma_reading_keeps_metadata(state: FileStateView, lines: Seq<Seq<u8>>)
    ensures
        ({
            let after = session_parser::read_lines(state, lines).state;
            &&& state.cwd is Some ==> after.cwd is Some
            &&& state.session_id is Some ==> after.session_id is Some
            &&& !state.metadata_missing() ==> !after.metadata_missing()
        }),
    decreases lines.len(),
{
    if lines.len() > 0 {
        lemma_reading_keeps_metadata(state, lines.drop_last());
    }
}

/// A search for metadata that is over found a working directory and a session id.
proof fn lemma_complete_search_found_both(state: FileStateView, lines: Seq<Seq<u8>>)
    ensures
        ({
            let search = session_parser::hydrate_lines(state, lines);
            search.complete ==> search.state.cwd is Some && search.state.session_id is Some
        }),
    decreases lines.len(),
{
    if lines.len() > 0 {
        lemma_complete_search_found_both(state, lines.drop_last());
    }
}

/// A search that starts from both pieces of metadata where another search was over, be they empty,
/// is over no later than that one; so it meets no line that is no text either.
proof fn lemma_second_search_is_readable(
    state: FileStateView,
    later: FileStateView,
    lines: Seq<Seq<u8>>,
)
    requires
        session_parser::hydrate_lines(state, lines).readable,
        session_parser::hydrate_lines(state, lines).complete ==> later.cwd is Some
            && later.session_id is Some,
    ensures
        session_parser::hydrate_lines(later, lines).readable,
        session_parser::hydrate_lines(state, lines).complete ==> session_parser::hydrate_lines(
            later,
            lines,
        ).complete,
    decreases lines.len(),
{
    if lines.len() > 0 {
        lemma_second_search_is_readable(state, later, lines.drop_last());
        lemma_search_keeps_metadata(later, lines.drop_last());
    }
}

/// The search for metadata takes away no piece of it.
proof fn lemma_search_keeps_metadata(state: FileStateView, lines: Seq<Seq<u8>>)
    ensures
        ({
            let after = session_parser::hydrate_lines(state, lines).state;
            &&& state.cwd is Some ==> after.cwd is Some
            &&& state.session_id is Some ==> after.session_id is Some
        }),
    decreases lines.len(),
{
    if lines.len() > 0 {
        lemma_search_keeps_metadata(state, lines.drop_last());
    }
}

/// The search for metadata leaves everything else of a log's state as it is.
proof fn lemma_hydration_keeps_position(state: FileStateView, lines: Seq<Seq<u8>>)
    ensures
        ({
            let found = session_parser::hydrate_lines(state, lines).state;
            &&& found == (FileStateView {
                cwd: found.cwd,
                session_id: found.session_id,
                ..state
            })
        }),
    decreases lines.len(),
{
    if lines.len() > 0 {
        lemma_hydration_keeps_position(state, lines.drop_last());
    }
}

/// The search for metadata touches nothing of a log's state but the working directory and the
/// session id, and touches nothing at all where both are known.
pub proof fn law_hydration_touches_only_metadata(state: FileStateView, content: Seq<u8>)
    ensures
        ({
            let found = session_parser::hydrated(state, content).state;
            &&& found == (FileStateView {
                cwd: found.cwd,
                session_id: found.session_id,
                ..state
            })
            &&& !state.metadata_missing() ==> found == state
        }),
{
    lemma_hydration_keeps_position(
        state,
        text::split_crlf_lines(
            content,
            session_parser::NEWLINE,
            session_parser::CARRIAGE_RETURN,
        ),
    );
}

/// Lines only ever change what is remembered of calls and metadata.
proof fn lemma_reading_keeps_position(state: FileStateView, lines: Seq<Seq<u8>>)
    ensures
        ({
            let left = session_parser::read_lines(state, lines).state;
            &&& left.offset == state.offset
            &&& left.mtime_ns == state.mtime_ns
            &&& left.size == state.size
            &&& !state.metadata_missing() ==> !left.metadata_missing()
        }),
    decreases lines.len(),
{
    if lines.len() > 0 {
        lemma_reading_keeps_position(state, lines.drop_last());
    }
}

/// The lines of a text are those of its first part and those of the rest, where the first part
/// ends in a newline.
proof fn lemma_lines_of_two_parts(first: Seq<u8>, rest: Seq<u8>, newline: u8)
    requires
        first.len() > 0 ==> first.last() == newline,
    ensures
        text::split_lines(first + rest, newline) == text::split_lines(first, newline)
            + text::split_lines(rest, newline),
    decreases first.len(),
{
    if first.len() == 0 {
        assert(first + rest =~= rest);
        assert(text::split_lines(first, newline) + text::split_lines(rest, newline)
            =~= text::split_lines(rest, newline));
    } else {
        let end = lemma_first_newline(first, newline);
        text::lemma_line_end(first, newline, end);
        assert forall|i: int| 0 <= i < end implies (first + rest)[i] != newline by {
            assert((first + rest)[i] == first[i]);
        }
        text::lemma_line_end(first + rest, newline, end);
        let tail = first.skip(end + 1);
        assert((first + rest).skip(end + 1) =~= tail + rest);
        assert((first + rest).take(end) =~= first.take(end));
        if tail.len() > 0 {
            assert(tail.last() == first.last());
        }
        lemma_lines_of_two_parts(tail, rest, newline);
        assert(text::split_lines(first + rest, newline) =~= text::split_lines(first, newline)
            + text::split_lines(rest, newline));
    }
}

/// A text that ends in a newline has a first one.
proof fn lemma_first_newline(s: Seq<u8>, newline: u8) -> (end: int)
    requires
        s.len() > 0,
        s.last() == newline,
    ensures
        0 <= end < s.len(),
        s[end] == newline,
        forall|i: int| 0 <= i < end ==> s[i] != newline,
    decreases s.len(),
{
    if s[0] == newline {
        0
    } else {
        let rest = s.drop_first();
        let end = lemma_first_newline(rest, newline);
        assert forall|i: int| 0 <= i < end + 1 implies s[i] != newline by {
            if i > 0 {
                assert(s[i] == rest[i - 1]);
            }
        }
        end + 1
    }
}

/// Of a log that grew, the appended lines are read and no others: visiting it when it is written
/// up to some line, and again when more was appended, gives the events that one visit at the end
/// would have given, in the same order.
pub proof fn law_appended_lines_are_read_once(
    state: FileStateView,
    written: Seq<u8>,
    appended: Seq<u8>,
    mtime_ns: u64,
    later_ns: u64,
)
    requires
        !state.metadata_missing(),
        written.len() + appended.len() <= u64::MAX,
        state.offset <= written.len(),
        written.len() > state.offset ==> written.last() == session_parser::NEWLINE,
        !session_parser::is_unchanged(state, mtime_ns, written.len() as u64),
        !session_parser::is_unchanged(
            state,
            later_ns,
            (written.len() + appended.len()) as u64,
        ),
        later_ns != mtime_ns || appended.len() > 0,
        session_parser::processed(state, written, mtime_ns, written.len() as u64).events is Some,
    ensures
        ({
            let size = (written.len() + appended.len()) as u64;
            let first = session_parser::processed(state, written, mtime_ns, written.len() as u64);
            let second = session_parser::processed(
                first.state,
                written + appended,
                later_ns,
                size,
            );
            let whole = session_parser::processed(state, written + appended, later_ns, size);
            &&& second.events == session_parser::read_lines(
                first.state,
                text::split_lines(appended, session_parser::NEWLINE),
            ).given_events()
            &&& whole.events == (match second.events {
                Some(events) => Some(first.events->0 + events),
                None => None,
            })
        }),
{
    let newline = session_parser::NEWLINE;
    let size = (written.len() + appended.len()) as u64;
    let content = written + appended;
    let first = session_parser::processed(state, written, mtime_ns, written.len() as u64);
    let start = state.offset;
    let before = session_parser::unread(written, start);
    let lines = text::split_lines(before, newline);
    let more = text::split_lines(appended, newline);
    lemma_reading_keeps_position(state, lines);
    assert(session_parser::unread(content, start) =~= before + appended);
    if before.len() > 0 {
        assert(before.last() == written.last());
    }
    lemma_lines_of_two_parts(before, appended, newline);
    session_parser::law_reading_resumes(state, lines, more);
    assert(session_parser::unread(content, written.len() as u64) =~= appended);
    lemma_position_plays_no_part(session_parser::read_lines(state, lines).state, first.state, more);
}

/// States that agree on the metadata and on the remembered calls.
spec fn agree(a: FileStateView, b: FileStateView) -> bool {
    &&& a.cwd == b.cwd
    &&& a.session_id == b.session_id
    &&& a.seen_calls == b.seen_calls
}

/// What lines do rests on the metadata and on the remembered calls alone.
proof fn lemma_position_plays_no_part(a: FileStateView, b: FileStateView, lines: Seq<Seq<u8>>)
    requires
        agree(a, b),
    ensures
        session_parser::read_lines(a, lines).events == session_parser::read_lines(b, lines).events,
        session_parser::read_lines(a, lines).readable == session_parser::read_lines(
            b,
            lines,
        ).readable,
        agree(
            session_parser::read_lines(a, lines).state,
            session_parser::read_lines(b, lines).state,
        ),
    decreases lines.len(),
{
    if lines.len() > 0 {
        lemma_position_plays_no_part(a, b, lines.drop_last());
    }
}

/// A log that has become shorter than what was read of it is read from its beginning.
pub proof fn law_truncated_log_is_read_again(
    state: FileStateView,
    content: Seq<u8>,
    mtime_ns: u64,
    size: u64,
)
    requires
        !state.metadata_missing(),
        size < state.offset,
        !session_parser::is_unchanged(state, mtime_ns, size),
    ensures
        session_parser::processed(state, content, mtime_ns, size).events
            == session_parser::read_lines(
            state,
            text::split_lines(content, session_parser::NEWLINE),
        ).given_events(),
{
    assert(session_parser::unread(content, 0) =~= content);
}

} // verus!
