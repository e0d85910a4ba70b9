//! Bringing what is remembered of the logs up to date with the logs.
use vstd::prelude::*;

use crate::file_map;
use crate::models::{ApprovalEvent, EventView, FileStateView, PersistedState, StateView};
use crate::session_laws;
use crate::session_parser;
use crate::session_parser::{SessionError, SessionProblem};
use crate::session_tree;
use crate::session_tree::SessionFile;
use crate::state;
use crate::string_set;
use crate::string_set::StringSet;
use crate::text;

verus! {

/// The bytes of each of a list of logs.
pub open spec fn byte_views(contents: Seq<Vec<u8>>) -> Seq<Seq<u8>> {
    contents.map_values(|content: Vec<u8>| content@)
}

/// The paths of a list of logs.
pub open spec fn live_set(files: Seq<SessionFile>) -> Set<Seq<char>> {
    session_tree::file_paths(session_tree::file_views(files)).to_set()
}

/// The paths of a list of logs, as a set.
pub fn live_paths(files: &Vec<SessionFile>) -> (live: StringSet)
    ensures
        live@ == live_set(files@),
{
    let ghost all = session_tree::file_paths(session_tree::file_views(files@));
    let mut live = StringSet::new();
    let mut i: usize = 0;
    assert(all.take(0).to_set() =~= Set::empty());
    while i < files.len()
        invariant
            i <= files@.len(),
            all == session_tree::file_paths(session_tree::file_views(files@)),
            live@ == all.take(i as int).to_set(),
        decreases files@.len() - i,
    {
        proof {
            string_set::lemma_taken_members(all, i as int);
        }
        live.insert(files[i].path.clone());
        i += 1;
    }
    assert(all.take(i as int) =~= all);
    live
}

/// The paths whose metadata is missing.
pub open spec fn missing_paths(
    files: Map<Seq<char>, FileStateView>,
    paths: Seq<Seq<char>>,
) -> Seq<Seq<char>>
    decreases paths.len(),
{
    if paths.len() == 0 {
        Seq::empty()
    } else {
        let before = missing_paths(files, paths.drop_last());
        if file_map::entry(files, paths.last()).metadata_missing() {
            before.push(paths.last())
        } else {
            before
        }
    }
}

/// The logs, in the order of their paths, in which metadata has to be searched.
pub fn paths_to_hydrate(files: &Vec<SessionFile>, state: &PersistedState) -> (result: Vec<String>)
    ensures
        text::texts(result@) == missing_paths(
            state@.files,
            string_set::listing_of(live_set(files@)),
        ),
{
    let live = live_paths(files).to_list();
    let ghost listing = text::texts(live@);
    let mut result: Vec<String> = Vec::new();
    let mut i: usize = 0;
    assert(text::texts(result@) =~= Seq::empty());
    assert(listing.take(0) =~= Seq::empty());
    while i < live.len()
        invariant
            i <= live@.len(),
            listing == text::texts(live@),
            text::texts(result@) == missing_paths(state@.files, listing.take(i as int)),
        decreases live@.len() - i,
    {
        let ghost before = text::texts(result@);
        assert(listing.take(i + 1).drop_last() =~= listing.take(i as int));
        if state.files.get_or_fresh(live[i].as_str()).metadata_missing() {
            result.push(live[i].clone());
            assert(text::texts(result@) =~= before.push(live@[i as int]@));
        }
        i += 1;
    }
    assert(listing.take(i as int) =~= listing);
    result
}

/// How far the search for metadata in a list of logs came: what is remembered so far, how many logs
/// were searched, whether anything changed, and the log that could not be read, if there was one.
#[verifier::ext_equal]
pub struct Hydrating {
    pub files: Map<Seq<char>, FileStateView>,
    pub searched: nat,
    pub dirty: bool,
    pub unreadable: Option<Seq<char>>,
}

impl Hydrating {
    /// Every log so far could be read.
    pub open spec fn readable(self) -> bool {
        self.unreadable is None
    }
}

/// The search for metadata after one more log. It stops at a log that cannot be read.
pub open spec fn hydrate_path(
    progress: Hydrating,
    path: Seq<char>,
    contents: Seq<Seq<u8>>,
) -> Hydrating {
    let before = file_map::entry(progress.files, path);
    if !progress.readable() {
        progress
    } else if before.metadata_missing() {
        let found = session_parser::hydrated(before, contents[progress.searched as int]);
        Hydrating {
            files: progress.files.insert(path, found.state),
            searched: progress.searched + 1,
            dirty: progress.dirty || found.readable && found.state != before,
            unreadable: if found.readable {
                None
            } else {
                Some(path)
            },
        }
    } else {
        Hydrating { files: progress.files.insert(path, before), ..progress }
    }
}

/// The search for metadata after a list of logs. `contents` are those of the logs in which it is
/// missing.
pub open spec fn hydrate_paths(
    files: Map<Seq<char>, FileStateView>,
    paths: Seq<Seq<char>>,
    contents: Seq<Seq<u8>>,
) -> Hydrating
    decreases paths.len(),
{
    if paths.len() == 0 {
        Hydrating { files, searched: 0, dirty: false, unreadable: None }
    } else {
        hydrate_path(hydrate_paths(files, paths.drop_last(), contents), paths.last(), contents)
    }
}

/// A search that met a log that cannot be read is not changed by further logs.
proof fn lemma_hydrating_stops(
    files: Map<Seq<char>, FileStateView>,
    paths: Seq<Seq<char>>,
    more: Seq<Seq<char>>,
    contents: Seq<Seq<u8>>,
)
    requires
        !hydrate_paths(files, paths, contents).readable(),
    ensures
        hydrate_paths(files, paths + more, contents) == hydrate_paths(files, paths, contents),
    decreases more.len(),
{
    if more.len() == 0 {
        assert(paths + more =~= paths);
    } else {
        lemma_hydrating_stops(files, paths, more.drop_last(), contents);
        assert((paths + more).drop_last() =~= paths + more.drop_last());
    }
}

/// The search for metadata changes nothing of the logs that it was not asked about, and searches
/// the logs whose metadata is missing.
proof fn lemma_hydrating_is_local(
    files: Map<Seq<char>, FileStateView>,
    paths: Seq<Seq<char>>,
    contents: Seq<Seq<u8>>,
)
    requires
        paths.no_duplicates(),
    ensures
        forall|path: Seq<char>|
            !paths.contains(path) ==> #[trigger] file_map::entry(
                hydrate_paths(files, paths, contents).files,
                path,
            ) == file_map::entry(files, path),
        forall|path: Seq<char>|
            !paths.contains(path) ==> #[trigger] hydrate_paths(
                files,
                paths,
                contents,
            ).files.contains_key(path) == files.contains_key(path),
        hydrate_paths(files, paths, contents).readable() ==> hydrate_paths(
            files,
            paths,
            contents,
        ).searched == missing_paths(files, paths).len(),
    decreases paths.len(),
{
    if paths.len() > 0 {
        let rest = paths.drop_last();
        lemma_hydrating_is_local(files, rest, contents);
        assert(!rest.contains(paths.last()));
        let before = hydrate_paths(files, rest, contents).files;
        let after = hydrate_paths(files, paths, contents).files;
        assert forall|path: Seq<char>| !paths.contains(path) implies #[trigger] file_map::entry(
            after,
            path,
        ) == file_map::entry(files, path) && #[trigger] after.contains_key(path)
            == files.contains_key(path) by {
            if rest.contains(path) {
                let i = choose|i: int| 0 <= i < rest.len() && rest[i] == path;
                assert(paths[i] == path);
            }
            assert(paths[paths.len() - 1] == paths.last());
            assert(file_map::entry(before, path) == file_map::entry(files, path));
            assert(before.contains_key(path) == files.contains_key(path));
        }
    }
}

/// The logs with missing metadata among the first ones.
proof fn lemma_missing_grow(
    files: Map<Seq<char>, FileStateView>,
    paths: Seq<Seq<char>>,
    length: int,
)
    requires
        0 <= length <= paths.len(),
    ensures
        missing_paths(files, paths.take(length)).is_prefix_of(missing_paths(files, paths)),
    decreases paths.len(),
{
    if length < paths.len() {
        assert(paths.drop_last().take(length) =~= paths.take(length));
        lemma_missing_grow(files, paths.drop_last(), length);
    } else {
        assert(paths.take(length) =~= paths);
    }
}

/// Searches metadata in each log in which it is missing, in the order of their paths, and then
/// forgets the logs that are gone. Tells whether anything changed.
///
/// `contents` are those of the logs that `paths_to_hydrate` names, in that order.
pub fn hydrate_missing_metadata(
    files: &Vec<SessionFile>,
    contents: &Vec<Vec<u8>>,
    state: &mut PersistedState,
) -> (result: Result<bool, SessionError>)
    requires
        contents@.len() == missing_paths(
            old(state)@.files,
            string_set::listing_of(live_set(files@)),
        ).len(),
    ensures
        ({
            let live = live_set(files@);
            let progress = hydrate_paths(
                old(state)@.files,
                string_set::listing_of(live),
                byte_views(contents@),
            );
            match result {
                Ok(dirty) => {
                    &&& progress.readable()
                    &&& final(state)@ == (StateView {
                        files: progress.files.restrict(live),
                        ..old(state)@
                    })
                    &&& dirty == (progress.dirty || !progress.files.dom().subset_of(live))
                },
                Err(error) => {
                    &&& progress.unreadable matches Some(path) && error@ == (
                    SessionProblem::InvalidUtf8 { path })
                    &&& final(state)@ == (StateView { files: progress.files, ..old(state)@ })
                },
            }
        }),
{
    let live = live_paths(files);
    let paths = live.to_list();
    let ghost listing = text::texts(paths@);
    let ghost bytes = byte_views(contents@);
    let ghost known = state@.files;
    let mut dirty = false;
    let total: usize = contents.len();
    let mut searched: usize = 0;
    let mut i: usize = 0;
    assert(listing.take(0) =~= Seq::empty());
    while i < paths.len()
        invariant
            i <= paths@.len(),
            total == contents@.len(),
            listing == text::texts(paths@),
            string_set::is_increasing(listing),
            listing == string_set::listing_of(live_set(files@)),
            bytes == byte_views(contents@),
            known == old(state)@.files,
            state.initialized == old(state).initialized,
            contents@.len() == missing_paths(known, listing).len(),
            hydrate_paths(known, listing.take(i as int), bytes) == (Hydrating {
                files: state@.files,
                searched: searched as nat,
                dirty,
                unreadable: None,
            }),
        decreases paths@.len() - i,
    {
        let path = &paths[i];
        let ghost before = hydrate_paths(known, listing.take(i as int), bytes);
        proof {
            assert(listing.take(i + 1).drop_last() =~= listing.take(i as int));
            assert(listing.take(i + 1).last() == path@);
            lemma_increasing_is_distinct(listing);
            lemma_hydrating_is_local(known, listing.take(i as int), bytes);
            lemma_missing_grow(known, listing, i + 1);
            assert(!listing.take(i as int).contains(path@));
            assert(file_map::entry(before.files, path@) == file_map::entry(known, path@));
        }
        let mut file_state = state.files.get_or_fresh(path.as_str());
        let ghost unsearched = file_state@;
        if file_state.metadata_missing() {
            let previous = file_state.clone();
            assert(bytes[searched as int] == contents@[searched as int]@);
            let outcome = session_parser::hydrate_session_metadata(
                path.as_str(),
                contents[searched].as_slice(),
                &mut file_state,
            );
            match outcome {
                Ok(()) => {
                    if !file_state.same_as(&previous) {
                        dirty = true;
                    }
                    state.files.insert(path.clone(), file_state);
                    searched += 1;
                },
                Err(error) => {
                    state.files.insert(path.clone(), file_state);
                    proof {
                        lemma_hydrating_stops(
                            known,
                            listing.take(i + 1),
                            listing.skip(i + 1),
                            bytes,
                        );
                        assert(listing.take(i + 1) + listing.skip(i + 1) =~= listing);
                    }
                    return Err(error);
                },
            }
        } else {
            state.files.insert(path.clone(), file_state);
        }
        i += 1;
    }
    assert(listing.take(i as int) =~= listing);
    let removed = state::prune_deleted_files(state, &live);
    Ok(removed || dirty)
}

/// An increasing list has no text twice.
proof fn lemma_increasing_is_distinct(listing: Seq<Seq<char>>)
    requires
        string_set::is_increasing(listing),
    ensures
        listing.no_duplicates(),
        forall|i: int|
            #![trigger listing.take(i)]
            0 <= i < listing.len() ==> listing.take(i).no_duplicates() && !listing.take(i).contains(
                listing[i],
            ),
{
    assert forall|i: int, j: int| 0 <= i < listing.len() && 0 <= j < listing.len() && i
        != j implies listing[i] != listing[j] by {
        string_set::lemma_one_place(listing, i);
        string_set::lemma_one_place(listing, j);
    }
}

/// What the search for metadata makes of each log: it fills in what the log's own content tells
/// where metadata is missing, and leaves the log as it was remembered where none is. A log that
/// nothing was remembered of is remembered from then on.
pub proof fn law_hydration_is_per_log(
    files: Map<Seq<char>, FileStateView>,
    paths: Seq<Seq<char>>,
    contents: Seq<Seq<u8>>,
    index: int,
)
    requires
        paths.no_duplicates(),
        0 <= index < paths.len(),
        hydrate_paths(files, paths, contents).readable(),
    ensures
        ({
            let before = file_map::entry(files, paths[index]);
            let after = hydrate_paths(files, paths, contents).files;
            let place = missing_paths(files, paths.take(index)).len();
            &&& after.contains_key(paths[index])
            &&& after[paths[index]] == if before.metadata_missing() {
                session_parser::hydrated(before, contents[place as int]).state
            } else {
                before
            }
        }),
    decreases paths.len(),
{
    let rest = paths.drop_last();
    lemma_hydrating_is_local(files, rest, contents);
    if index < rest.len() {
        assert(rest[index] == paths[index]);
        assert(rest.take(index) =~= paths.take(index));
        law_hydration_is_per_log(files, rest, contents, index);
        assert(paths[index] != paths[paths.len() - 1]);
    } else {
        assert(paths.take(index) =~= rest);
        assert(!rest.contains(paths[index]));
        assert(file_map::entry(hydrate_paths(files, rest, contents).files, paths[index])
            == file_map::entry(files, paths[index]));
    }
}

/// The search for metadata moves no log's reading position, forgets no handled call and changes no
/// remembered time or size.
pub proof fn law_hydration_keeps_positions(
    files: Map<Seq<char>, FileStateView>,
    paths: Seq<Seq<char>>,
    contents: Seq<Seq<u8>>,
    path: Seq<char>,
)
    requires
        paths.no_duplicates(),
        hydrate_paths(files, paths, contents).readable(),
    ensures
        ({
            let before = file_map::entry(files, path);
            let after = file_map::entry(hydrate_paths(files, paths, contents).files, path);
            &&& after.offset == before.offset
            &&& after.seen_calls == before.seen_calls
            &&& after.mtime_ns == before.mtime_ns
            &&& after.size == before.size
        }),
{
    if paths.contains(path) {
        let index = choose|index: int| 0 <= index < paths.len() && paths[index] == path;
        law_hydration_is_per_log(files, paths, contents, index);
        let place = missing_paths(files, paths.take(index)).len();
        session_laws::law_hydration_touches_only_metadata(
            file_map::entry(files, path),
            contents[place as int],
        );
    } else {
        lemma_hydrating_is_local(files, paths, contents);
    }
}

/// A log as it was found: its path, its time and size, and its content.
#[derive(Debug)]
pub struct LogSnapshot {
    pub path: String,
    pub mtime_ns: u64,
    pub size: u64,
    pub content: Vec<u8>,
}

/// What a `LogSnapshot` holds.
pub struct SnapshotView {
    pub path: Seq<char>,
    pub mtime_ns: u64,
    pub size: u64,
    pub content: Seq<u8>,
}

impl View for LogSnapshot {
    type V = SnapshotView;

    open spec fn view(&self) -> SnapshotView {
        SnapshotView {
            path: self.path@,
            mtime_ns: self.mtime_ns,
            size: self.size,
            content: self.content@,
        }
    }
}

/// What each of a list of snapshots holds.
pub open spec fn snapshot_views(logs: Seq<LogSnapshot>) -> Seq<SnapshotView> {
    logs.map_values(|log: LogSnapshot| log@)
}

/// How far the processing of a list of logs came: what is remembered so far, whether anything
/// changed, the events so far, and the log that could not be read, if there was one.
#[verifier::ext_equal]
pub struct Syncing {
    pub files: Map<Seq<char>, FileStateView>,
    pub dirty: bool,
    pub events: Seq<EventView>,
    pub unreadable: Option<Seq<char>>,
}

impl Syncing {
    /// Every log so far could be read.
    pub open spec fn readable(self) -> bool {
        self.unreadable is None
    }
}

/// The processing of logs after one more. It stops at a log that cannot be read.
pub open spec fn sync_log(progress: Syncing, log: SnapshotView) -> Syncing {
    let before = file_map::entry(progress.files, log.path);
    let done = session_parser::processed(before, log.content, log.mtime_ns, log.size);
    if !progress.readable() {
        progress
    } else {
        match done.events {
            Some(events) => Syncing {
                files: progress.files.insert(log.path, done.state),
                dirty: progress.dirty || done.state != before,
                events: progress.events + events,
                unreadable: None,
            },
            None => Syncing {
                files: progress.files.insert(log.path, done.state),
                unreadable: Some(log.path),
                ..progress
            },
        }
    }
}

/// The processing of a list of logs.
pub open spec fn sync_logs(
    files: Map<Seq<char>, FileStateView>,
    logs: Seq<SnapshotView>,
) -> Syncing
    decreases logs.len(),
{
    if logs.len() == 0 {
        Syncing { files, dirty: false, events: Seq::empty(), unreadable: None }
    } else {
        sync_log(sync_logs(files, logs.drop_last()), logs.last())
    }
}

/// Processing that met a log that cannot be read is not changed by further logs.
proof fn lemma_syncing_stops(
    files: Map<Seq<char>, FileStateView>,
    logs: Seq<SnapshotView>,
    more: Seq<SnapshotView>,
)
    requires
        !sync_logs(files, logs).readable(),
    ensures
        sync_logs(files, logs + more) == sync_logs(files, logs),
    decreases more.len(),
{
    if more.len() == 0 {
        assert(logs + more =~= logs);
    } else {
        lemma_syncing_stops(files, logs, more.drop_last());
        assert((logs + more).drop_last() =~= logs + more.drop_last());
    }
}

/// Whether a log with the given time and size has to be read at all.
pub fn needs_reading(state: &PersistedState, path: &str, mtime_ns: u64, size: u64) -> (needed: bool)
    ensures
        needed == !session_parser::is_unchanged(
            file_map::entry(state@.files, path@),
            mtime_ns,
            size,
        ),
{
    let file_state = state.files.get_or_fresh(path);
    file_state.metadata_missing() || file_state.mtime_ns != mtime_ns || file_state.size != size
}

/// Processes logs one after the other. Tells whether anything changed, and gives the approval
/// prompts in the order in which they were found.
pub fn sync_session_files(files: &Vec<LogSnapshot>, state: &mut PersistedState) -> (result: Result<
    (bool, Vec<ApprovalEvent>),
    SessionError,
>)
    ensures
        ({
            let progress = sync_logs(old(state)@.files, snapshot_views(files@));
            &&& final(state)@ == (StateView { files: progress.files, ..old(state)@ })
            &&& match result {
                Ok((dirty, events)) => {
                    &&& progress.readable()
                    &&& dirty == progress.dirty
                    &&& session_parser::event_views(events@) == progress.events
                },
                Err(error) => progress.unreadable matches Some(path) && error@ == (
                SessionProblem::InvalidUtf8 { path }),
            }
        }),
{
    let ghost logs = snapshot_views(files@);
    let ghost known = state@.files;
    let mut dirty = false;
    let mut events: Vec<ApprovalEvent> = Vec::new();
    let mut i: usize = 0;
    assert(logs.take(0) =~= Seq::empty());
    assert(session_parser::event_views(events@) =~= Seq::empty());
    while i < files.len()
        invariant
            i <= files@.len(),
            logs == snapshot_views(files@),
            known == old(state)@.files,
            state.initialized == old(state).initialized,
            sync_logs(known, logs.take(i as int)) == (Syncing {
                files: state@.files,
                dirty,
                events: session_parser::event_views(events@),
                unreadable: None,
            }),
        decreases files@.len() - i,
    {
        let log = &files[i];
        proof {
            assert(logs.take(i + 1).drop_last() =~= logs.take(i as int));
            assert(logs.take(i + 1).last() == log@);
        }
        let mut file_state = state.files.get_or_fresh(log.path.as_str());
        let before = file_state.clone();
        let outcome = session_parser::process_file(
            log.path.as_str(),
            log.content.as_slice(),
            log.mtime_ns,
            log.size,
            &mut file_state,
        );
        match outcome {
            Ok(file_events) => {
                if !file_state.same_as(&before) {
                    dirty = true;
                }
                state.files.insert(log.path.clone(), file_state);
                let ghost earlier = session_parser::event_views(events@);
                let mut found = file_events;
                events.append(&mut found);
                assert(session_parser::event_views(events@) =~= earlier
                    + session_parser::event_views(file_events@));
            },
            Err(error) => {
                state.files.insert(log.path.clone(), file_state);
                proof {
                    lemma_syncing_stops(known, logs.take(i + 1), logs.skip(i + 1));
                    assert(logs.take(i + 1) + logs.skip(i + 1) =~= logs);
                }
                return Err(error);
            },
        }
        i += 1;
    }
    assert(logs.take(i as int) =~= logs);
    Ok((dirty, events))
}

/// Processing logs leaves what is remembered of every other log as it was.
pub proof fn law_sync_leaves_other_logs(
    files: Map<Seq<char>, FileStateView>,
    logs: Seq<SnapshotView>,
    path: Seq<char>,
)
    requires
        forall|i: int| 0 <= i < logs.len() ==> (#[trigger] logs[i]).path != path,
    ensures
        sync_logs(files, logs).files.contains_key(path) == files.contains_key(path),
        files.contains_key(path) ==> sync_logs(files, logs).files[path] == files[path],
    decreases logs.len(),
{
    if logs.len() > 0 {
        let rest = logs.drop_last();
        assert(logs[logs.len() - 1].path != path);
        assert forall|i: int| 0 <= i < rest.len() implies (#[trigger] rest[i]).path != path by {
            assert(rest[i] == logs[i]);
        }
        law_sync_leaves_other_logs(files, rest, path);
    }
}

/// Processing logs in two goes comes to the same as processing all of them in one.
pub proof fn law_sync_resumes(
    files: Map<Seq<char>, FileStateView>,
    logs: Seq<SnapshotView>,
    more: Seq<SnapshotView>,
)
    requires
        sync_logs(files, logs).readable(),
    ensures
        ({
            let first = sync_logs(files, logs);
            let second = sync_logs(first.files, more);
            sync_logs(files, logs + more) == (Syncing {
                dirty: first.dirty || second.dirty,
                events: first.events + second.events,
                ..second
            })
        }),
    decreases more.len(),
{
    let first = sync_logs(files, logs);
    if more.len() == 0 {
        assert(logs + more =~= logs);
        assert(first.events + Seq::<EventView>::empty() =~= first.events);
    } else {
        law_sync_resumes(files, logs, more.drop_last());
        assert((logs + more).drop_last() =~= logs + more.drop_last());
        let second = sync_logs(first.files, more.drop_last());
        let log = more.last();
        let done = session_parser::processed(
            file_map::entry(second.files, log.path),
            log.content,
            log.mtime_ns,
            log.size,
        );
        match done.events {
            Some(events) => {
                assert(first.events + second.events + events =~= first.events + (second.events
                    + events));
            },
            None => {},
        }
    }
}

/// Processing a log that has not changed since it was read changes nothing and gives no events.
pub proof fn law_unchanged_logs_are_silent(
    files: Map<Seq<char>, FileStateView>,
    logs: Seq<SnapshotView>,
)
    requires
        forall|i: int|
            #![trigger logs[i]]
            0 <= i < logs.len() ==> files.contains_key(logs[i].path)
                && session_parser::is_unchanged(
                files[logs[i].path],
                logs[i].mtime_ns,
                logs[i].size,
            ),
    ensures
        sync_logs(files, logs) == (Syncing {
            files,
            dirty: false,
            events: Seq::empty(),
            unreadable: None,
        }),
    decreases logs.len(),
{
    if logs.len() > 0 {
        let rest = logs.drop_last();
        assert forall|i: int|
            #![trigger rest[i]]
            0 <= i < rest.len() implies files.contains_key(rest[i].path)
            && session_parser::is_unchanged(
            files[rest[i].path],
            rest[i].mtime_ns,
            rest[i].size,
        ) by {
            assert(rest[i] == logs[i]);
        }
        law_unchanged_logs_are_silent(files, rest);
        let log = logs[logs.len() - 1];
        assert(session_parser::is_unchanged(files[log.path], log.mtime_ns, log.size));
        assert(files.insert(log.path, files[log.path]) =~= files);
        assert(Seq::<EventView>::empty() + Seq::<EventView>::empty() =~= Seq::<EventView>::empty());
    }
}

} // verus!
