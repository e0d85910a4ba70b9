//! What holds of the choice of logs as a whole.
use vstd::prelude::*;

use crate::distinct;
use crate::models::FileStateView;
use crate::order;
use crate::order::Order;
use crate::paths;
use crate::selection;
use crate::session_parser;
use crate::session_tree;
use crate::session_tree::SessionFileView;

verus! {

/// A log found for a session is one of the logs, and is of that session.
proof fn lemma_log_of_session(files: Seq<SessionFileView>, session_id: Seq<char>)
    ensures
        selection::log_of_session(files, session_id) matches Some(place) ==> 0 <= place
            < files.len() && files[place].session_id == Some(session_id),
    decreases files.len(),
{
    if files.len() > 0 {
        lemma_log_of_session(files.drop_last(), session_id);
    }
}

/// The paths of the logs of recent sessions are paths of logs.
proof fn lemma_recent_paths(files: Seq<SessionFileView>, session_ids: Seq<Seq<char>>)
    ensures
        selection::recent_paths(files, session_ids).len() <= session_ids.len(),
        forall|path: Seq<char>| #[trigger]
            selection::recent_paths(files, session_ids).contains(path)
                ==> session_tree::file_paths(files).contains(path),
    decreases session_ids.len(),
{
    if session_ids.len() > 0 {
        lemma_recent_paths(files, session_ids.drop_last());
        lemma_log_of_session(files, session_ids.last());
        let before = selection::recent_paths(files, session_ids.drop_last());
        match selection::log_of_session(files, session_ids.last()) {
            Some(place) => {
                assert(session_tree::file_paths(files)[place] == files[place].path);
                assert forall|path: Seq<char>| #[trigger]
                    selection::recent_paths(files, session_ids).contains(
                        path,
                    ) implies session_tree::file_paths(files).contains(path) by {
                    distinct::lemma_pushed(before, files[place].path, path);
                }
            },
            None => {},
        }
    }
}

/// The paths by recency are the paths of the logs.
proof fn lemma_paths_by_recency(files: Seq<SessionFileView>)
    ensures
        forall|path: Seq<char>| #[trigger]
            selection::paths_by_recency(files).contains(path) <==> session_tree::file_paths(
                files,
            ).contains(path),
{
    let keys = selection::recency_keys(files);
    let rank = selection::by_recency();
    let places = order::sorted_positions(keys, rank);
    let all = session_tree::file_paths(files);
    let sorted = selection::paths_by_recency(files);
    selection::lemma_recency_order();
    order::lemma_sorted_positions(keys, rank);
    assert forall|path: Seq<char>| #[trigger] sorted.contains(path) <==> all.contains(path) by {
        if sorted.contains(path) {
            let a = choose|a: int| 0 <= a < sorted.len() && sorted[a] == path;
            assert(all[places[a]] == path);
        }
        if all.contains(path) {
            let i = choose|i: int| 0 <= i < all.len() && all[i] == path;
            assert(places.contains(i));
            let a = choose|a: int| 0 <= a < places.len() && places[a] == i;
            assert(sorted[a] == path);
        }
    }
}

/// What is chosen from is the paths of the logs.
pub proof fn lemma_candidates(files: Seq<SessionFileView>, session_ids: Seq<Seq<char>>)
    ensures
        forall|path: Seq<char>| #[trigger]
            (selection::recent_paths(files, session_ids) + selection::paths_by_recency(
                files,
            )).contains(path) <==> session_tree::file_paths(files).contains(path),
{
    let recent = selection::recent_paths(files, session_ids);
    let others = selection::paths_by_recency(files);
    lemma_recent_paths(files, session_ids);
    lemma_paths_by_recency(files);
    assert forall|path: Seq<char>| #[trigger]
        (recent + others).contains(path) <==> session_tree::file_paths(files).contains(path) by {
        if (recent + others).contains(path) {
            let i = choose|i: int|
                0 <= i < (recent + others).len() && (recent + others)[i] == path;
            if i < recent.len() {
                assert(recent.contains(recent[i]));
            } else {
                assert(others.contains(others[i - recent.len()]));
            }
        }
        if others.contains(path) {
            let i = choose|i: int| 0 <= i < others.len() && others[i] == path;
            assert((recent + others)[recent.len() + i] == path);
        }
    }
}

/// No more logs are watched than the limit, none twice, and only such as are there.
pub proof fn law_watched_logs_are_few_and_real(
    files: Seq<SessionFileView>,
    session_ids: Seq<Seq<char>>,
)
    ensures
        ({
            let chosen = selection::chosen_paths(files, session_ids);
            &&& chosen.len() <= session_tree::MAX_WATCHED_SESSION_FILES
            &&& chosen.no_duplicates()
            &&& forall|path: Seq<char>| #[trigger]
                chosen.contains(path) ==> session_tree::file_paths(files).contains(path)
        }),
{
    lemma_candidates(files, session_ids);
    distinct::law_first_distinct(
        selection::recent_paths(files, session_ids) + selection::paths_by_recency(files),
        session_tree::MAX_WATCHED_SESSION_FILES as nat,
    );
}

/// Where there are no more logs than the limit, all of them are watched.
pub proof fn law_few_logs_are_all_watched(
    files: Seq<SessionFileView>,
    session_ids: Seq<Seq<char>>,
    index: int,
)
    requires
        files.len() <= session_tree::MAX_WATCHED_SESSION_FILES,
        0 <= index < files.len(),
    ensures
        selection::chosen_paths(files, session_ids).contains(files[index].path),
{
    let limit = session_tree::MAX_WATCHED_SESSION_FILES as nat;
    let all = session_tree::file_paths(files);
    let items = selection::recent_paths(files, session_ids) + selection::paths_by_recency(files);
    let chosen = selection::chosen_paths(files, session_ids);
    lemma_candidates(files, session_ids);
    distinct::law_first_distinct(items, limit);
    assert(all[index] == files[index].path);
    assert(items.contains(files[index].path));
    if chosen.len() == limit {
        chosen.unique_seq_to_set();
        vstd::seq_lib::seq_to_set_is_finite(all);
        all.lemma_cardinality_of_set();
        assert forall|path: Seq<char>| chosen.to_set().contains(path) implies all.to_set().contains(
            path,
        ) by {
            assert(chosen.contains(path));
        }
        vstd::set_lib::lemma_len_subset(chosen.to_set(), all.to_set());
        vstd::set_lib::lemma_subset_equality(chosen.to_set(), all.to_set());
        assert(all.to_set().contains(files[index].path));
    }
}

/// The log of each recent session is watched as long as the sessions before it have fewer different
/// logs than the limit. A session without a log takes no place, nor does one whose log was chosen
/// already.
pub proof fn law_recent_sessions_are_watched(
    files: Seq<SessionFileView>,
    session_ids: Seq<Seq<char>>,
    index: int,
    place: int,
)
    requires
        0 <= index < session_ids.len(),
        distinct::first_distinct(
            selection::recent_paths(files, session_ids.take(index)),
            session_tree::MAX_WATCHED_SESSION_FILES as nat,
        ).len() < session_tree::MAX_WATCHED_SESSION_FILES,
        selection::log_of_session(files, session_ids[index]) == Some(place),
    ensures
        selection::chosen_paths(files, session_ids).contains(files[place].path),
{
    let limit = session_tree::MAX_WATCHED_SESSION_FILES as nat;
    let early = session_ids.take(index + 1);
    let recent = selection::recent_paths(files, session_ids);
    let first = selection::recent_paths(files, early);
    assert(early.drop_last() =~= session_ids.take(index));
    lemma_recent_paths_grow(files, session_ids, index + 1);
    assert(first.last() == files[place].path);
    let spot = first.len() - 1;
    assert(recent[spot] == files[place].path);
    let items = recent + selection::paths_by_recency(files);
    assert(items[spot] == files[place].path);
    let before = selection::recent_paths(files, session_ids.take(index));
    assert(first == before.push(files[place].path));
    assert forall|i: int| 0 <= i < spot implies items.take(spot)[i] == #[trigger] before[i] by {
        assert(first[i] == before[i]);
        assert(recent[i] == first[i]);
    }
    assert(items.take(spot) =~= before);
    distinct::law_early_items_are_kept(items, limit, spot);
}

/// Further sessions come after the ones before.
proof fn lemma_recent_paths_grow(
    files: Seq<SessionFileView>,
    session_ids: Seq<Seq<char>>,
    length: int,
)
    requires
        0 <= length <= session_ids.len(),
    ensures
        selection::recent_paths(files, session_ids.take(length)).is_prefix_of(
            selection::recent_paths(files, session_ids),
        ),
    decreases session_ids.len(),
{
    if length < session_ids.len() {
        assert(session_ids.drop_last().take(length) =~= session_ids.take(length));
        lemma_recent_paths_grow(files, session_ids.drop_last(), length);
    } else {
        assert(session_ids.take(length) =~= session_ids);
    }
}

/// A text that is chosen although it stands after one that is not chosen was there before that
/// one already.
proof fn lemma_chosen_before_left_out(
    items: Seq<Seq<char>>,
    limit: nat,
    left_out: int,
    chosen: Seq<char>,
)
    requires
        0 <= left_out < items.len(),
        !distinct::first_distinct(items, limit).contains(items[left_out]),
        distinct::first_distinct(items, limit).contains(chosen),
    ensures
        items.take(left_out).contains(chosen),
    decreases items.len(),
{
    let rest = items.drop_last();
    let before = distinct::first_distinct(rest, limit);
    if left_out < rest.len() {
        assert(rest[left_out] == items[left_out]);
        distinct::lemma_pushed(before, items.last(), items[left_out]);
        distinct::lemma_pushed(before, items.last(), chosen);
        assert(items.take(left_out) =~= rest.take(left_out));
        if before.contains(chosen) {
            lemma_chosen_before_left_out(rest, limit, left_out, chosen);
        } else {
            lemma_left_out_means_full(rest, limit, left_out);
        }
    } else {
        assert(items.take(left_out) =~= rest);
        distinct::lemma_pushed(before, items.last(), items.last());
        distinct::law_first_distinct(rest, limit);
    }
}

/// Where a text of a list is not among its first different ones, there are as many as asked for.
proof fn lemma_left_out_means_full(items: Seq<Seq<char>>, limit: nat, left_out: int)
    requires
        0 <= left_out < items.len(),
        !distinct::first_distinct(items, limit).contains(items[left_out]),
    ensures
        distinct::first_distinct(items, limit).len() >= limit,
{
    distinct::law_first_distinct(items, limit);
    if distinct::first_distinct(items, limit).len() < limit {
        assert(items.contains(items[left_out]));
    }
}

/// A log that is watched though it belongs to no recent session changed later than any log that is
/// not watched, or at the same time and its path is the lesser text.
pub proof fn law_unwatched_logs_are_older(
    files: Seq<SessionFileView>,
    session_ids: Seq<Seq<char>>,
    watched: Seq<char>,
    left_out: int,
)
    requires
        0 <= left_out < files.len(),
        !selection::chosen_paths(files, session_ids).contains(files[left_out].path),
        selection::chosen_paths(files, session_ids).contains(watched),
        !selection::recent_paths(files, session_ids).contains(watched),
    ensures
        exists|index: int|
            0 <= index < files.len() && (#[trigger] files[index]).path == watched
                && (files[index].mtime_ns > files[left_out].mtime_ns || files[index].mtime_ns
                == files[left_out].mtime_ns && order::text_order(watched, files[left_out].path)
                == Order::Less),
{
    let limit = session_tree::MAX_WATCHED_SESSION_FILES as nat;
    let keys = selection::recency_keys(files);
    let rank = selection::by_recency();
    let places = order::sorted_positions(keys, rank);
    let recent = selection::recent_paths(files, session_ids);
    let others = selection::paths_by_recency(files);
    let items = recent + others;
    selection::lemma_recency_order();
    order::lemma_sorted_positions(keys, rank);
    assert(places.contains(left_out));
    let b = choose|b: int| 0 <= b < places.len() && places[b] == left_out;
    let spot = recent.len() + b;
    assert(others[b] == files[left_out].path);
    assert(items[spot] == files[left_out].path);
    lemma_chosen_before_left_out(items, limit, spot, watched);
    let early = items.take(spot);
    let at = choose|at: int| 0 <= at < early.len() && early[at] == watched;
    if at < recent.len() {
        assert(recent[at] == watched);
        assert(recent.contains(watched));
    }
    let a = at - recent.len();
    assert(others[a] == watched);
    let index = places[a];
    assert(files[index].path == watched);
    assert(order::position_order(keys, rank)(places[a], places[b]));
    assert(rank(keys[index], keys[left_out]) != Order::Greater);
    order::lemma_text_order();
    assert(order::by_text()(watched, files[left_out].path) == order::text_order(
        watched,
        files[left_out].path,
    ));
}

/// The recent sessions are no more than the limit, each once; and each is one that the index names.
pub proof fn law_recent_sessions_are_few_and_real(entries: Seq<Option<Seq<char>>>)
    ensures
        session_tree::recent_ids(entries).len() <= session_tree::MAX_RECENT_SESSION_IDS,
        session_tree::recent_ids(entries).no_duplicates(),
        forall|id: Seq<char>| #[trigger]
            session_tree::recent_ids(entries).contains(id) ==> entries.contains(Some(id)),
{
    let ids = session_tree::known_ids(entries.reverse());
    distinct::law_first_distinct(ids, session_tree::MAX_RECENT_SESSION_IDS as nat);
    lemma_known_ids(entries.reverse());
    assert forall|id: Seq<char>| #[trigger]
        session_tree::recent_ids(entries).contains(id) implies entries.contains(Some(id)) by {
        assert(ids.contains(id));
        let i = choose|i: int|
            0 <= i < entries.reverse().len() && entries.reverse()[i] == Some(id);
        assert(entries[entries.len() - 1 - i] == Some(id));
    }
}

/// The known ids come from the entries.
proof fn lemma_known_ids(entries: Seq<Option<Seq<char>>>)
    ensures
        forall|id: Seq<char>| #[trigger]
            session_tree::known_ids(entries).contains(id) ==> entries.contains(Some(id)),
    decreases entries.len(),
{
    if entries.len() > 0 {
        let rest = entries.drop_last();
        lemma_known_ids(rest);
        assert forall|id: Seq<char>| #[trigger]
            session_tree::known_ids(entries).contains(id) implies entries.contains(Some(id)) by {
            if session_tree::known_ids(rest).contains(id) {
                let i = choose|i: int| 0 <= i < rest.len() && rest[i] == Some(id);
                assert(entries[i] == Some(id));
            } else {
                match entries.last() {
                    Some(last) => {
                        distinct::lemma_pushed(session_tree::known_ids(rest), last, id);
                        assert(entries[entries.len() - 1] == Some(id));
                    },
                    None => {},
                }
            }
        }
    }
}

/// The session that the index names last comes first.
pub proof fn law_latest_session_comes_first(entries: Seq<Option<Seq<char>>>, id: Seq<char>)
    ensures
        session_tree::recent_ids(entries.push(Some(id))).len() > 0,
        session_tree::recent_ids(entries.push(Some(id)))[0] == id,
{
    let limit = session_tree::MAX_RECENT_SESSION_IDS as nat;
    let reversed = entries.push(Some(id)).reverse();
    let rest = entries.reverse();
    assert(reversed =~= seq![Some(id)] + rest);
    lemma_known_ids_start(id, rest);
    let later = session_tree::known_ids(rest);
    assert(seq![id].drop_last() =~= Seq::<Seq<char>>::empty());
    assert(distinct::first_distinct(Seq::<Seq<char>>::empty(), limit).len() == 0);
    assert(distinct::first_distinct(seq![id], limit) =~= seq![id]);
    distinct::law_first_distinct_keeps_beginning(seq![id], later, limit);
}

/// The first known id is the first entry that holds one.
pub proof fn lemma_known_ids_start(id: Seq<char>, rest: Seq<Option<Seq<char>>>)
    ensures
        session_tree::known_ids(seq![Some(id)] + rest) == seq![id] + session_tree::known_ids(rest),
    decreases rest.len(),
{
    let all = seq![Some(id)] + rest;
    if rest.len() == 0 {
        assert(all.drop_last() =~= Seq::<Option<Seq<char>>>::empty());
        assert(all.last() == Some(id));
        assert(session_tree::known_ids(all.drop_last()) =~= Seq::empty());
        assert(session_tree::known_ids(all) =~= seq![id] + session_tree::known_ids(rest));
    } else {
        assert(all.drop_last() =~= seq![Some(id)] + rest.drop_last());
        lemma_known_ids_start(id, rest.drop_last());
        assert(session_tree::known_ids(all) =~= seq![id] + session_tree::known_ids(rest));
    }
}

/// A log that was read needs no further reading until its time or size changes.
pub proof fn law_read_log_needs_no_scan(
    state: FileStateView,
    content: Seq<u8>,
    file: SessionFileView,
    known: Map<Seq<char>, FileStateView>,
    added: Set<Seq<char>>,
)
    requires
        session_parser::processed(state, content, file.mtime_ns, file.size).events is Some,
        known.contains_key(file.path),
        known[file.path] == session_parser::processed(
            state,
            content,
            file.mtime_ns,
            file.size,
        ).state,
        !added.contains(file.path),
    ensures
        !selection::needs_scan(file, known, added),
{
}

/// The paths of the logs that need a scan are the candidates, and no others.
pub proof fn lemma_scan_candidates(
    files: Seq<SessionFileView>,
    known: Map<Seq<char>, FileStateView>,
    added: Set<Seq<char>>,
    path: Seq<char>,
)
    ensures
        selection::scan_candidates(files, known, added).contains(path) <==> exists|i: int|
            0 <= i < files.len() && (#[trigger] files[i]).path == path && selection::needs_scan(
                files[i],
                known,
                added,
            ),
    decreases files.len(),
{
    if files.len() > 0 {
        let rest = files.drop_last();
        let before = selection::scan_candidates(rest, known, added);
        lemma_scan_candidates(rest, known, added, path);
        assert(files[files.len() - 1] == files.last());
        distinct::lemma_pushed(before, files.last().path, path);
        if selection::scan_candidates(files, known, added).contains(path) {
            if before.contains(path) {
                let i = choose|i: int|
                    0 <= i < rest.len() && (#[trigger] rest[i]).path == path
                        && selection::needs_scan(rest[i], known, added);
                assert(files[i] == rest[i]);
            }
        }
        if exists|i: int|
            0 <= i < files.len() && (#[trigger] files[i]).path == path && selection::needs_scan(
                files[i],
                known,
                added,
            ) {
            let i = choose|i: int|
                0 <= i < files.len() && (#[trigger] files[i]).path == path
                    && selection::needs_scan(files[i], known, added);
            if i < rest.len() {
                assert(rest[i] == files[i]);
            }
        }
    }
}

/// Each path of a list has, up to its spelling, a first place in it.
proof fn lemma_has_first_spelling(items: Seq<Seq<char>>, index: int) -> (place: int)
    requires
        0 <= index < items.len(),
    ensures
        0 <= place <= index,
        selection::is_first_at(items, place, items[place]),
        paths::path_order(items[place], items[index]) == Order::Same,
    decreases index,
{
    paths::lemma_path_order();
    if exists|j: int|
        0 <= j < index && paths::path_order(#[trigger] items[j], items[index]) == Order::Same {
        let j = choose|j: int|
            0 <= j < index && paths::path_order(#[trigger] items[j], items[index]) == Order::Same;
        let place = lemma_has_first_spelling(items, j);
        assert(paths::components_of(items[place]) == paths::components_of(items[index]));
        place
    } else {
        assert(paths::components_of(items[index]) == paths::components_of(items[index]));
        index
    }
}

/// A list of paths names a log, under its path or another spelling of it.
pub open spec fn names_log(listing: Seq<Seq<char>>, log: Seq<char>) -> bool {
    exists|path: Seq<char>| #[trigger]
        listing.contains(path) && paths::components_of(path) == paths::components_of(log)
}

/// Every log that is new, has changed, or was just added to the watched ones is read again, under
/// its path or another spelling of it; and nothing is read again but such logs.
pub proof fn law_changed_logs_are_scanned(
    files: Seq<SessionFileView>,
    known: Map<Seq<char>, FileStateView>,
    added: Set<Seq<char>>,
)
    ensures
        ({
            let scanned = selection::reconciled_paths(files, known, added);
            &&& forall|i: int|
                #![trigger files[i]]
                0 <= i < files.len() && selection::needs_scan(files[i], known, added) ==> names_log(
                    scanned,
                    files[i].path,
                )
            &&& forall|path: Seq<char>| #[trigger]
                scanned.contains(path) ==> exists|i: int|
                    0 <= i < files.len() && (#[trigger] files[i]).path == path
                        && selection::needs_scan(files[i], known, added)
        }),
{
    let scanned = selection::reconciled_paths(files, known, added);
    selection::lemma_reconciled_paths(files, known, added);
    let items = selection::scan_candidates(files, known, added);
    paths::lemma_path_order();
    assert forall|i: int|
        #![trigger files[i]]
        0 <= i < files.len() && selection::needs_scan(files[i], known, added) implies names_log(
        scanned,
        files[i].path,
    ) by {
        lemma_scan_candidates(files, known, added, files[i].path);
        let index = choose|index: int| 0 <= index < items.len() && items[index] == files[i].path;
        let place = lemma_has_first_spelling(items, index);
        assert(selection::is_first_of_its_kind(items, items[place]));
        assert(scanned.contains(items[place]));
        assert(paths::components_of(items[place]) == paths::components_of(files[i].path));
    }
    assert forall|path: Seq<char>| #[trigger] scanned.contains(path) implies exists|i: int|
        0 <= i < files.len() && (#[trigger] files[i]).path == path && selection::needs_scan(
            files[i],
            known,
            added,
        ) by {
        let place = choose|place: int| selection::is_first_at(items, place, path);
        assert(items.contains(path));
        lemma_scan_candidates(files, known, added, path);
    }
}

} // verus!
