//! Which logs are watched and which are read again, stated on the logs and the session index alone.
use vstd::prelude::*;

use crate::distinct;
use crate::models::FileStateView;
use crate::order;
use crate::order::Order;
use crate::paths;
use crate::selection;
use crate::selection_laws;
use crate::session_tree;
use crate::session_tree::SessionFileView;

verus! {

/// Some log belongs to a session.
pub open spec fn has_log(files: Seq<SessionFileView>, session_id: Seq<char>) -> bool {
    exists|i: int| 0 <= i < files.len() && (#[trigger] files[i]).session_id == Some(session_id)
}

/// The log at a place belongs to a session, and none before it does.
pub open spec fn is_first_log(
    files: Seq<SessionFileView>,
    session_id: Seq<char>,
    place: int,
) -> bool {
    &&& 0 <= place < files.len()
    &&& files[place].session_id == Some(session_id)
    &&& forall|i: int|
        0 <= i < place ==> (#[trigger] files[i]).session_id != Some(session_id)
}

/// How many of a list of sessions have a log.
pub open spec fn sessions_with_log(files: Seq<SessionFileView>, session_ids: Seq<Seq<char>>) -> nat
    decreases session_ids.len(),
{
    if session_ids.len() == 0 {
        0
    } else {
        sessions_with_log(files, session_ids.drop_last()) + if has_log(files, session_ids.last()) {
            1nat
        } else {
            0nat
        }
    }
}

/// The search for the log of a session finds one exactly where some log belongs to the session,
/// however many logs there are, and it finds the first such log.
pub proof fn law_first_log_of_session_is_found(
    files: Seq<SessionFileView>,
    session_id: Seq<char>,
)
    ensures
        selection::log_of_session(files, session_id) is Some <==> has_log(files, session_id),
        selection::log_of_session(files, session_id) matches Some(place) ==> is_first_log(
            files,
            session_id,
            place,
        ),
        forall|place: int| #[trigger]
            is_first_log(files, session_id, place) ==> selection::log_of_session(files, session_id)
                == Some(place),
    decreases files.len(),
{
    if files.len() > 0 {
        let rest = files.drop_last();
        law_first_log_of_session_is_found(rest, session_id);
        assert forall|i: int| 0 <= i < rest.len() implies rest[i] == #[trigger] files[i] by {}
        if has_log(rest, session_id) {
            let i = choose|i: int|
                0 <= i < rest.len() && (#[trigger] rest[i]).session_id == Some(session_id);
            assert(files[i].session_id == Some(session_id));
        }
        if has_log(files, session_id) && !has_log(rest, session_id) {
            let i = choose|i: int|
                0 <= i < files.len() && (#[trigger] files[i]).session_id == Some(session_id);
            if i < rest.len() {
                assert(rest[i].session_id == Some(session_id));
            }
        }
        if files.last().session_id == Some(session_id) {
            assert(files[files.len() - 1].session_id == Some(session_id));
        }
        match selection::log_of_session(rest, session_id) {
            Some(found) => {
                assert(rest[found] == files[found]);
                assert(is_first_log(files, session_id, found));
            },
            None => {
                assert forall|i: int| 0 <= i < rest.len() implies (
                #[trigger] files[i]).session_id != Some(session_id) by {
                    assert(rest[i] == files[i]);
                }
            },
        }
        assert forall|place: int| #[trigger]
            is_first_log(files, session_id, place) implies selection::log_of_session(
            files,
            session_id,
        ) == Some(place) by {
            match selection::log_of_session(files, session_id) {
                Some(found) => {
                    assert(files[found].session_id == Some(session_id));
                    if found < place {
                        assert(files[found].session_id != Some(session_id));
                    }
                    if place < found {
                        assert(files[place].session_id != Some(session_id));
                    }
                },
                None => {
                    assert(files[place].session_id == Some(session_id));
                    assert(has_log(files, session_id));
                },
            }
        }
    }
}

/// There are as many logs of sessions as sessions with a log.
proof fn lemma_count_of_recent_paths(files: Seq<SessionFileView>, session_ids: Seq<Seq<char>>)
    ensures
        selection::recent_paths(files, session_ids).len() == sessions_with_log(files, session_ids),
    decreases session_ids.len(),
{
    if session_ids.len() > 0 {
        lemma_count_of_recent_paths(files, session_ids.drop_last());
        law_first_log_of_session_is_found(files, session_ids.last());
    }
}

/// The first log of a recent session is watched where fewer than sixteen of the sessions before it
/// have a log; so the first recent session that has one always has its log watched.
pub proof fn law_logs_of_recent_sessions_are_watched(
    files: Seq<SessionFileView>,
    session_ids: Seq<Seq<char>>,
    index: int,
    place: int,
)
    requires
        0 <= index < session_ids.len(),
        is_first_log(files, session_ids[index], place),
        sessions_with_log(files, session_ids.take(index)) < 16,
    ensures
        selection::chosen_paths(files, session_ids).contains(files[place].path),
{
    let before = selection::recent_paths(files, session_ids.take(index));
    law_first_log_of_session_is_found(files, session_ids[index]);
    lemma_count_of_recent_paths(files, session_ids.take(index));
    distinct::law_first_distinct(before, 16);
    selection_laws::law_recent_sessions_are_watched(files, session_ids, index, place);
}

/// Where fewer than sixteen logs are watched, every log is.
pub proof fn law_no_log_is_left_out_in_vain(
    files: Seq<SessionFileView>,
    session_ids: Seq<Seq<char>>,
    index: int,
)
    requires
        0 <= index < files.len(),
        !selection::chosen_paths(files, session_ids).contains(files[index].path),
    ensures
        selection::chosen_paths(files, session_ids).len() == 16,
{
    selection_laws::lemma_candidates(files, session_ids);
    let items = selection::recent_paths(files, session_ids) + selection::paths_by_recency(files);
    distinct::law_first_distinct(items, 16);
    assert(session_tree::file_paths(files)[index] == files[index].path);
    assert(items.contains(files[index].path));
}

/// A watched log that is not the first log of any recent session changed later than any log that is
/// left out, or at the same time and its path is the lesser text.
pub proof fn law_later_logs_are_preferred(
    files: Seq<SessionFileView>,
    session_ids: Seq<Seq<char>>,
    watched: int,
    left_out: int,
)
    requires
        0 <= watched < files.len(),
        0 <= left_out < files.len(),
        selection::chosen_paths(files, session_ids).contains(files[watched].path),
        !selection::chosen_paths(files, session_ids).contains(files[left_out].path),
        forall|k: int|
            0 <= k < session_ids.len() ==> !is_first_log(files, #[trigger] session_ids[k], watched),
        forall|i: int|
            0 <= i < files.len() && i != watched ==> (#[trigger] files[i]).path
                != files[watched].path,
    ensures
        files[watched].mtime_ns >= files[left_out].mtime_ns,
        files[watched].mtime_ns == files[left_out].mtime_ns ==> order::text_order(
            files[watched].path,
            files[left_out].path,
        ) == Order::Less,
{
    lemma_paths_of_recent_sessions(files, session_ids, watched);
    selection_laws::law_unwatched_logs_are_older(
        files,
        session_ids,
        files[watched].path,
        left_out,
    );
}

/// The path of a log that is the first one of no recent session is none of the paths of the recent
/// sessions.
proof fn lemma_paths_of_recent_sessions(
    files: Seq<SessionFileView>,
    session_ids: Seq<Seq<char>>,
    index: int,
)
    requires
        0 <= index < files.len(),
        forall|k: int|
            0 <= k < session_ids.len() ==> !is_first_log(files, #[trigger] session_ids[k], index),
        forall|i: int|
            0 <= i < files.len() && i != index ==> (#[trigger] files[i]).path != files[index].path,
    ensures
        !selection::recent_paths(files, session_ids).contains(files[index].path),
    decreases session_ids.len(),
{
    if session_ids.len() > 0 {
        let rest = session_ids.drop_last();
        assert forall|k: int| 0 <= k < rest.len() implies !is_first_log(
            files,
            #[trigger] rest[k],
            index,
        ) by {
            assert(rest[k] == session_ids[k]);
        }
        lemma_paths_of_recent_sessions(files, rest, index);
        law_first_log_of_session_is_found(files, session_ids.last());
        match selection::log_of_session(files, session_ids.last()) {
            Some(place) => {
                assert(session_ids[session_ids.len() - 1] == session_ids.last());
                assert(place != index);
                distinct::lemma_pushed(
                    selection::recent_paths(files, rest),
                    files[place].path,
                    files[index].path,
                );
            },
            None => {},
        }
    }
}

/// A log is not the one that is remembered: it was just added to the watched ones, nothing is
/// remembered of it, or its time or its size is another.
pub open spec fn is_news(
    file: SessionFileView,
    known: Map<Seq<char>, FileStateView>,
    added: Set<Seq<char>>,
) -> bool {
    !(!added.contains(file.path) && known.contains_key(file.path) && known[file.path].mtime_ns
        == file.mtime_ns && known[file.path].size == file.size)
}

/// A log that is news, before which no other spelling of its path is, is read again under its own
/// path.
pub proof fn law_news_is_read_under_its_first_spelling(
    files: Seq<SessionFileView>,
    known: Map<Seq<char>, FileStateView>,
    added: Set<Seq<char>>,
    index: int,
)
    requires
        0 <= index < files.len(),
        is_news(files[index], known, added),
        forall|j: int|
            0 <= j < index && is_news(#[trigger] files[j], known, added) ==> paths::components_of(
                files[j].path,
            ) != paths::components_of(files[index].path),
    ensures
        selection::reconciled_paths(files, known, added).contains(files[index].path),
{
    let items = selection::scan_candidates(files, known, added);
    selection::lemma_reconciled_paths(files, known, added);
    let place = lemma_first_spelling(files, known, added, index);
    assert(selection::is_first_of_its_kind(items, files[index].path));
}

/// The place of such a log among those that have to be read.
proof fn lemma_first_spelling(
    files: Seq<SessionFileView>,
    known: Map<Seq<char>, FileStateView>,
    added: Set<Seq<char>>,
    index: int,
) -> (place: int)
    requires
        0 <= index < files.len(),
        is_news(files[index], known, added),
        forall|j: int|
            0 <= j < index && is_news(#[trigger] files[j], known, added) ==> paths::components_of(
                files[j].path,
            ) != paths::components_of(files[index].path),
    ensures
        selection::is_first_at(
            selection::scan_candidates(files, known, added),
            place,
            files[index].path,
        ),
    decreases files.len(),
{
    let rest = files.drop_last();
    let before = selection::scan_candidates(rest, known, added);
    let items = selection::scan_candidates(files, known, added);
    let path = files[index].path;
    paths::lemma_path_order();
    if index < rest.len() {
        assert(rest[index] == files[index]);
        assert forall|j: int|
            0 <= j < index && is_news(
                #[trigger] rest[j],
                known,
                added,
            ) implies paths::components_of(rest[j].path) != paths::components_of(
            rest[index].path,
        ) by {
            assert(rest[j] == files[j]);
        }
        let place = lemma_first_spelling(rest, known, added, index);
        assert forall|j: int| 0 <= j < place implies paths::path_order(#[trigger] items[j], path)
            != Order::Same by {
            assert(items[j] == before[j]);
        }
        place
    } else {
        let place = before.len() as int;
        assert forall|j: int| 0 <= j < place implies paths::path_order(#[trigger] items[j], path)
            != Order::Same by {
            assert(items[j] == before[j]);
            assert(before.contains(before[j]));
            selection_laws::lemma_scan_candidates(rest, known, added, before[j]);
            let i = choose|i: int|
                0 <= i < rest.len() && (#[trigger] rest[i]).path == before[j]
                    && selection::needs_scan(rest[i], known, added);
            assert(rest[i] == files[i]);
            assert(is_news(files[i], known, added));
        }
        place
    }
}

/// Every log that is news is read again, under its path or another spelling of it; nothing else is;
/// and the paths are in the order of paths, none under two spellings.
pub proof fn law_news_is_read(
    files: Seq<SessionFileView>,
    known: Map<Seq<char>, FileStateView>,
    added: Set<Seq<char>>,
)
    ensures
        ({
            let scanned = selection::reconciled_paths(files, known, added);
            &&& forall|i: int|
                #![trigger files[i]]
                0 <= i < files.len() && is_news(files[i], known, added)
                    ==> selection_laws::names_log(scanned, files[i].path)
            &&& forall|path: Seq<char>| #[trigger]
                scanned.contains(path) ==> exists|i: int|
                    0 <= i < files.len() && (#[trigger] files[i]).path == path && is_news(
                        files[i],
                        known,
                        added,
                    )
            &&& forall|a: int, b: int|
                #![trigger scanned[a], scanned[b]]
                0 <= a < b < scanned.len() ==> paths::path_order(scanned[a], scanned[b])
                    == Order::Less
        }),
{
    selection_laws::law_changed_logs_are_scanned(files, known, added);
    selection::lemma_reconciled_paths(files, known, added);
    let scanned = selection::reconciled_paths(files, known, added);
    assert forall|path: Seq<char>| #[trigger] scanned.contains(path) implies exists|i: int|
        0 <= i < files.len() && (#[trigger] files[i]).path == path && is_news(
            files[i],
            known,
            added,
        ) by {
        let i = choose|i: int|
            0 <= i < files.len() && (#[trigger] files[i]).path == path && selection::needs_scan(
                files[i],
                known,
                added,
            );
        assert(is_news(files[i], known, added));
    }
}

} // verus!
