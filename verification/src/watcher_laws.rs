//! What holds of the course of the watcher as a whole.
use vstd::prelude::*;
use vstd::utf8;

use crate::file_map;
use crate::models::{EventView, FileStateView};
use crate::selection;
use crate::selection_laws;
use crate::session_laws;
use crate::session_parser;
use crate::session_tree;
use crate::session_tree::SessionFileView;
use crate::state;
use crate::string_set;
use crate::sync;
use crate::sync::SnapshotView;
use crate::text;
use crate::watcher;
use crate::watcher::{ActionView, PhaseView, PolledView, ReportView, Round, Step, WatcherView};

verus! {

/// While the watcher waits, delivers or begins a round nothing is unsaved; it saves only where
/// something is.
pub open spec fn is_consistent(watcher: WatcherView) -> bool {
    match watcher.phase {
        PhaseView::Scanning { .. } => !watcher.dirty,
        PhaseView::Polling => !watcher.dirty,
        PhaseView::Delivering => !watcher.dirty,
        PhaseView::Saving { .. } => watcher.dirty,
        _ => true,
    }
}

/// Every step keeps the watcher consistent. Events are delivered only once everything is saved, and
/// the watcher stops on request only once everything is.
pub proof fn law_events_are_delivered_only_when_saved(watcher: WatcherView, report: ReportView)
    requires
        is_consistent(watcher),
        watcher::expects(watcher, report),
    ensures
        ({
            let step = watcher::next_step(watcher, report);
            &&& is_consistent(step.watcher)
            &&& step.action is Deliver ==> !step.watcher.dirty
            &&& step.action is Finish ==> !step.watcher.dirty
        }),
{
}

/// An order to stop is followed at once: nothing is left to save.
pub proof fn law_stop_is_immediate(watcher: WatcherView)
    requires
        is_consistent(watcher),
        watcher.phase is Polling,
    ensures
        watcher::next_step(watcher, ReportView::StopRequested).action is Finish,
{
}

/// A search for metadata that found nothing new changed nothing that is remembered of any log.
proof fn lemma_clean_hydration(
    files: Map<Seq<char>, FileStateView>,
    paths: Seq<Seq<char>>,
    contents: Seq<Seq<u8>>,
)
    requires
        sync::hydrate_paths(files, paths, contents).readable(),
        !sync::hydrate_paths(files, paths, contents).dirty,
    ensures
        forall|path: Seq<char>| #[trigger]
            file_map::entry(sync::hydrate_paths(files, paths, contents).files, path)
                == file_map::entry(files, path),
    decreases paths.len(),
{
    if paths.len() > 0 {
        lemma_clean_hydration(files, paths.drop_last(), contents);
        let before = sync::hydrate_paths(files, paths.drop_last(), contents).files;
        let after = sync::hydrate_paths(files, paths, contents).files;
        assert forall|path: Seq<char>| #[trigger] file_map::entry(after, path) == file_map::entry(
            files,
            path,
        ) by {
            assert(file_map::entry(before, path) == file_map::entry(files, path));
            assert(file_map::entry(before, paths.last()) == file_map::entry(files, paths.last()));
        }
    }
}

/// Processing that reports no change changed nothing that is remembered of any log.
proof fn lemma_clean_sync(files: Map<Seq<char>, FileStateView>, logs: Seq<SnapshotView>)
    requires
        sync::sync_logs(files, logs).readable(),
        !sync::sync_logs(files, logs).dirty,
    ensures
        forall|path: Seq<char>| #[trigger]
            file_map::entry(sync::sync_logs(files, logs).files, path) == file_map::entry(
                files,
                path,
            ),
    decreases logs.len(),
{
    if logs.len() > 0 {
        lemma_clean_sync(files, logs.drop_last());
        let before = sync::sync_logs(files, logs.drop_last()).files;
        let after = sync::sync_logs(files, logs).files;
        assert forall|path: Seq<char>| #[trigger] file_map::entry(after, path) == file_map::entry(
            files,
            path,
        ) by {
            assert(file_map::entry(before, path) == file_map::entry(files, path));
            assert(file_map::entry(before, logs.last().path) == file_map::entry(
                files,
                logs.last().path,
            ));
        }
    }
}

/// Forgetting nothing changes nothing.
proof fn lemma_restrict_to_all(files: Map<Seq<char>, FileStateView>, live: Set<Seq<char>>)
    requires
        files.dom().subset_of(live),
    ensures
        files.restrict(live) == files,
{
    assert(files.restrict(live) =~= files);
}

/// A step that leaves nothing unsaved has changed nothing that is remembered of any log: what was
/// saved last still says the same of each. A log that is not remembered counts as a fresh one.
pub proof fn law_clean_steps_change_nothing(watcher: WatcherView, report: ReportView)
    requires
        watcher::expects(watcher, report),
        !watcher.dirty,
        !watcher::next_step(watcher, report).watcher.dirty,
        !(watcher::next_step(watcher, report).action is Fail),
    ensures
        watcher::next_step(watcher, report).watcher.state.initialized == watcher.state.initialized,
        forall|path: Seq<char>| #[trigger]
            file_map::entry(watcher::next_step(watcher, report).watcher.state.files, path)
                == file_map::entry(watcher.state.files, path),
{
    match (watcher.phase, report) {
        (PhaseView::Hydrating { tree, .. }, ReportView::LogsRead { contents }) => {
            let listing = watcher::live_listing(tree);
            let progress = sync::hydrate_paths(watcher.state.files, listing, contents);
            lemma_clean_hydration(watcher.state.files, listing, contents);
            lemma_restrict_to_all(progress.files, watcher::live_paths_of(tree));
        },
        (PhaseView::Inspecting { live }, ReportView::Inspected { logs }) => {
            lemma_clean_sync(watcher.state.files, logs);
            match live {
                Some(paths) => {
                    lemma_restrict_to_all(
                        sync::sync_logs(watcher.state.files, logs).files,
                        paths,
                    );
                },
                None => {},
            }
        },
        _ => {},
    }
}

/// Events are about to be delivered: at once, or when the state is saved.
pub open spec fn leads_to_delivery(step: Step, events: Seq<EventView>) -> bool {
    ||| step.action == (ActionView::Deliver { events })
    ||| step.action is Save && watcher::next_step(step.watcher, ReportView::Saved).action
        == (ActionView::Deliver { events })
}

/// The events that are found in logs are delivered, all of them and in order. Where all logs were
/// looked at, the time is told first.
pub proof fn law_found_events_are_delivered(
    watcher: WatcherView,
    live: Option<Set<Seq<char>>>,
    logs: Seq<SnapshotView>,
)
    requires
        watcher.phase == (PhaseView::Inspecting { live }),
        sync::sync_logs(watcher.state.files, logs).readable(),
        sync::sync_logs(watcher.state.files, logs).events.len() > 0,
    ensures
        ({
            let events = sync::sync_logs(watcher.state.files, logs).events;
            let step = watcher::next_step(watcher, ReportView::Inspected { logs });
            match live {
                None => leads_to_delivery(step, events),
                Some(_) => step.action is ReadClock && forall|now_ns: u64| #[trigger]
                    leads_to_delivery(
                        watcher::next_step(step.watcher, ReportView::Clock { now_ns }),
                        events,
                    ),
            }
        }),
{
}

/// A file that could not be registered to be watched is registered anew the next time that all
/// logs are looked at, as long as it is among those to watch.
pub proof fn law_failed_watches_are_tried_again(
    watcher: WatcherView,
    registered: Set<Seq<char>>,
    later: WatcherView,
    tree: Seq<SessionFileView>,
    recent: Seq<Seq<char>>,
)
    requires
        watcher.phase matches PhaseView::Registering { desired, .. } && desired
            == selection::chosen_paths(tree, recent).to_set() && desired != registered,
        later.phase == (PhaseView::Scanning { startup: false }),
        later.watched == watcher::next_step(
            watcher,
            ReportView::Registered { files: registered },
        ).watcher.watched,
    ensures
        watcher::next_step(later, ReportView::Scanned { tree, recent }).action == (
        ActionView::Register { files: selection::chosen_paths(tree, recent).to_set() }),
{
}

/// Logs that are read up to their size give no events.
proof fn lemma_read_logs_are_silent(
    files: Map<Seq<char>, FileStateView>,
    logs: Seq<SnapshotView>,
)
    requires
        forall|i: int, j: int|
            #![trigger logs[i], logs[j]]
            0 <= i < j < logs.len() ==> logs[i].path != logs[j].path,
        forall|i: int|
            #![trigger logs[i]]
            0 <= i < logs.len() ==> file_map::entry(files, logs[i].path).offset == logs[i].size
                && logs[i].content.len() == logs[i].size,
        sync::sync_logs(files, logs).readable(),
    ensures
        sync::sync_logs(files, logs).events.len() == 0,
    decreases logs.len(),
{
    if logs.len() > 0 {
        let rest = logs.drop_last();
        let log = logs[logs.len() - 1];
        assert forall|i: int, j: int|
            #![trigger rest[i], rest[j]]
            0 <= i < j < rest.len() implies rest[i].path != rest[j].path by {
            assert(rest[i] == logs[i] && rest[j] == logs[j]);
        }
        assert forall|i: int|
            #![trigger rest[i]]
            0 <= i < rest.len() implies file_map::entry(files, rest[i].path).offset == rest[i].size
            && rest[i].content.len() == rest[i].size && rest[i].path != log.path by {
            assert(rest[i] == logs[i]);
        }
        lemma_read_logs_are_silent(files, rest);
        sync::law_sync_leaves_other_logs(files, rest, log.path);
        let before = file_map::entry(sync::sync_logs(files, rest).files, log.path);
        assert(before == file_map::entry(files, log.path));
        session_laws::law_hydration_touches_only_metadata(before, log.content);
        assert(session_parser::unread(log.content, log.size).len() == 0);
        assert(text::split_lines(
            session_parser::unread(log.content, log.size),
            session_parser::NEWLINE,
        ).len() == 0);
    }
}

/// The reading of a log that was just taken as read, once missing metadata was searched.
proof fn lemma_bootstrapped_offset(
    files: Map<Seq<char>, FileStateView>,
    tree: Seq<SessionFileView>,
    contents: Seq<Seq<u8>>,
    index: int,
)
    requires
        0 <= index < tree.len(),
        forall|i: int, j: int|
            #![trigger tree[i], tree[j]]
            0 <= i < j < tree.len() ==> tree[i].path != tree[j].path,
        sync::hydrate_paths(
            state::bootstrapped(files, watcher::bootstrap_logs(tree)),
            watcher::live_listing(tree),
            contents,
        ).readable(),
    ensures
        file_map::entry(
            sync::hydrate_paths(
                state::bootstrapped(files, watcher::bootstrap_logs(tree)),
                watcher::live_listing(tree),
                contents,
            ).files.restrict(watcher::live_paths_of(tree)),
            tree[index].path,
        ).offset == tree[index].size,
{
    let logs = watcher::bootstrap_logs(tree);
    let begun = state::bootstrapped(files, logs);
    let listing = watcher::live_listing(tree);
    let live = watcher::live_paths_of(tree);
    let path = tree[index].path;
    string_set::lemma_listing_of(session_tree::file_paths(tree));
    assert forall|j: int| index < j < logs.len() implies (#[trigger] logs[j]).0
        != logs[index].0 by {
        assert(logs[j].0 == tree[j].path && logs[index].0 == tree[index].path);
    }
    state::law_last_bootstrapped_log_decides(files, logs, index);
    assert(logs[index].0 == path);
    assert(file_map::entry(begun, path).offset == tree[index].size);
    assert forall|i: int, j: int| 0 <= i < listing.len() && 0 <= j < listing.len() && i
        != j implies listing[i] != listing[j] by {
        string_set::lemma_one_place(listing, i);
        string_set::lemma_one_place(listing, j);
    }
    sync::law_hydration_keeps_positions(begun, listing, contents, path);
    let hydrated = sync::hydrate_paths(begun, listing, contents).files;
    assert(session_tree::file_paths(tree)[index] == path);
    assert(live.contains(path));
    assert(file_map::entry(hydrated.restrict(live), path) == file_map::entry(hydrated, path));
}

/// What the very first run finds in the logs that are there already is not delivered: the logs are
/// taken as read, and where they do not change while the watcher starts, no event comes of it.
///
/// The steps are those of a start: the list of logs, the contents of those whose metadata is
/// missing, the registration of the watched files where one is asked for, and the reading of all
/// logs.
pub proof fn law_first_run_is_silent(
    start: WatcherView,
    tree: Seq<SessionFileView>,
    recent: Seq<Seq<char>>,
    contents: Seq<Seq<u8>>,
    registered: Set<Seq<char>>,
    logs: Seq<SnapshotView>,
)
    requires
        start.phase == (PhaseView::Scanning { startup: true }),
        !start.state.initialized,
        forall|i: int, j: int|
            #![trigger tree[i], tree[j]]
            0 <= i < j < tree.len() ==> tree[i].path != tree[j].path,
        logs.len() == tree.len(),
        forall|i: int|
            #![trigger logs[i]]
            0 <= i < logs.len() ==> logs[i].path == tree[i].path && logs[i].size == tree[i].size
                && logs[i].content.len() == logs[i].size,
    ensures
        ({
            let scanned = watcher::next_step(start, ReportView::Scanned { tree, recent });
            let read = watcher::next_step(scanned.watcher, ReportView::LogsRead { contents });
            let watched = if read.action is Register {
                watcher::next_step(read.watcher, ReportView::Registered { files: registered })
            } else {
                read
            };
            let inspected = watcher::next_step(watched.watcher, ReportView::Inspected { logs });
            ||| read.action is Fail
            ||| watched.action == (ActionView::Inspect {
                paths: session_tree::file_paths(tree),
            }) && inspected.action is Fail
            ||| watched.action == (ActionView::Inspect {
                paths: session_tree::file_paths(tree),
            }) && inspected.action is Save && watcher::next_step(
                inspected.watcher,
                ReportView::Saved,
            ).action is Poll
        }),
{
    let begun = state::bootstrapped(start.state.files, watcher::bootstrap_logs(tree));
    let listing = watcher::live_listing(tree);
    let progress = sync::hydrate_paths(begun, listing, contents);
    let files = progress.files.restrict(watcher::live_paths_of(tree));
    if progress.readable() {
        if sync::sync_logs(files, logs).readable() {
            assert forall|i: int|
                #![trigger logs[i]]
                0 <= i < logs.len() implies file_map::entry(files, logs[i].path).offset
                == logs[i].size && logs[i].content.len() == logs[i].size by {
                lemma_bootstrapped_offset(start.state.files, tree, contents, i);
                assert(logs[i].path == tree[i].path);
            }
            assert forall|i: int, j: int|
                #![trigger logs[i], logs[j]]
                0 <= i < j < logs.len() implies logs[i].path != logs[j].path by {
                assert(tree[i].path != tree[j].path);
            }
            lemma_read_logs_are_silent(files, logs);
        }
    }
}

/// A line that is appended to a log of known metadata and asks for an approval that was not
/// reported yet is delivered as an event, once the change of the log is noticed.
pub proof fn law_appended_prompt_is_delivered(
    watcher: WatcherView,
    path: Seq<char>,
    written: Seq<u8>,
    line: Seq<u8>,
    mtime_ns: u64,
    event: EventView,
)
    requires
        watcher.phase is Polling,
        !file_map::entry(watcher.state.files, path).metadata_missing(),
        file_map::entry(watcher.state.files, path).offset == written.len(),
        written.len() + line.len() + 1 <= u64::MAX,
        forall|i: int| 0 <= i < line.len() ==> line[i] != session_parser::NEWLINE,
        utf8::valid_utf8(line),
        session_parser::line_outcome(
            utf8::decode_utf8(line),
            file_map::entry(watcher.state.files, path),
        ).1 == Some(event),
        !session_parser::is_unchanged(
            file_map::entry(watcher.state.files, path),
            mtime_ns,
            (written.len() + line.len() + 1) as u64,
        ),
    ensures
        ({
            let noticed = watcher::next_step(
                watcher,
                ReportView::Polled { outcome: PolledView::Changed { path } },
            );
            let log = SnapshotView {
                path,
                mtime_ns,
                size: (written.len() + line.len() + 1) as u64,
                content: written + line.push(session_parser::NEWLINE),
            };
            let read = watcher::next_step(
                noticed.watcher,
                ReportView::Inspected { logs: seq![log] },
            );
            &&& noticed.action == (ActionView::Inspect { paths: seq![path] })
            &&& leads_to_delivery(read, seq![event])
        }),
{
    let newline = session_parser::NEWLINE;
    let before = file_map::entry(watcher.state.files, path);
    let appended = line.push(newline);
    let size = (written.len() + line.len() + 1) as u64;
    let log = SnapshotView { path, mtime_ns, size, content: written + appended };
    assert(session_parser::unread(log.content, written.len() as u64) =~= appended);
    text::lemma_line_end(appended, newline, line.len() as int);
    assert(appended.take(line.len() as int) =~= line);
    assert(appended.skip(line.len() as int + 1).len() == 0);
    assert(text::split_lines(appended.skip(line.len() as int + 1), newline) =~= Seq::empty());
    assert(text::split_lines(appended, newline) =~= seq![line]);
    let lines = seq![line];
    assert(lines.drop_last() =~= Seq::<Seq<u8>>::empty());
    assert(session_parser::read_lines(before, lines.drop_last()).events =~= Seq::empty());
    assert(session_parser::read_lines(before, lines).events =~= seq![event]);
    let logs = seq![log];
    assert(logs.drop_last() =~= Seq::<SnapshotView>::empty());
    let done = session_parser::processed(before, log.content, mtime_ns, size);
    assert(done.events == Some(seq![event]));
    let first = sync::sync_logs(watcher.state.files, logs.drop_last());
    assert(first.files == watcher.state.files && first.readable() && first.events.len() == 0);
    assert(sync::sync_logs(watcher.state.files, logs) == sync::sync_log(first, log));
    assert(first.events + seq![event] =~= seq![event]);
}

/// An action reads a log, under its path or another spelling of it.
pub open spec fn inspects(action: ActionView, log: Seq<char>) -> bool {
    match action {
        ActionView::Inspect { paths } => selection_laws::names_log(paths, log),
        _ => false,
    }
}

/// Once metadata was searched on a round, every log whose time or size is not the one remembered is
/// read.
proof fn lemma_changed_log_is_inspected(
    watcher: WatcherView,
    tree: Seq<SessionFileView>,
    recent: Seq<Seq<char>>,
    added: Set<Seq<char>>,
    contents: Seq<Seq<u8>>,
    index: int,
)
    requires
        0 <= index < tree.len(),
        is_changed(watcher, tree[index]),
    ensures
        ({
            let read = watcher::logs_read(
                watcher,
                Round::Reconcile,
                tree,
                recent,
                added,
                contents,
            );
            read.action is Fail || inspects(read.action, tree[index].path)
        }),
{
    let listing = watcher::live_listing(tree);
    let live = watcher::live_paths_of(tree);
    let path = tree[index].path;
    let progress = sync::hydrate_paths(watcher.state.files, listing, contents);
    let known = progress.files.restrict(live);
    string_set::lemma_listing_of(session_tree::file_paths(tree));
    assert forall|i: int, j: int| 0 <= i < listing.len() && 0 <= j < listing.len() && i
        != j implies listing[i] != listing[j] by {
        string_set::lemma_one_place(listing, i);
        string_set::lemma_one_place(listing, j);
    }
    if progress.readable() {
        sync::law_hydration_keeps_positions(watcher.state.files, listing, contents, path);
        assert(session_tree::file_paths(tree)[index] == path);
        assert(live.contains(path));
        assert(file_map::entry(known, path) == file_map::entry(progress.files, path));
        selection_laws::law_changed_logs_are_scanned(tree, known, added);
        assert(selection::needs_scan(tree[index], known, added));
    }
}

/// The time or size of a log is not the one remembered. A log that is not remembered counts as a
/// fresh one.
pub open spec fn is_changed(watcher: WatcherView, file: SessionFileView) -> bool {
    let known = file_map::entry(watcher.state.files, file.path);
    known.mtime_ns != file.mtime_ns || known.size != file.size
}

/// A change of a log that no wake-up told of is found the next time that all logs are looked at:
/// when that is due, every log that has changed is read, whatever files were registered on the way.
pub proof fn law_missed_changes_are_inspected(
    watcher: WatcherView,
    now_ns: u64,
    tree: Seq<SessionFileView>,
    recent: Seq<Seq<char>>,
    registered: Set<Seq<char>>,
    contents: Seq<Seq<u8>>,
    index: int,
)
    requires
        watcher.phase is Polling,
        watcher::is_reconcile_due(watcher, now_ns),
        0 <= index < tree.len(),
        is_changed(watcher, tree[index]),
    ensures
        ({
            let due = watcher::next_step(
                watcher,
                ReportView::Polled { outcome: PolledView::Nothing { now_ns } },
            );
            let scanned = watcher::next_step(due.watcher, ReportView::Scanned { tree, recent });
            let watched = if scanned.action is Register {
                watcher::next_step(scanned.watcher, ReportView::Registered { files: registered })
            } else {
                scanned
            };
            let read = watcher::next_step(watched.watcher, ReportView::LogsRead { contents });
            &&& due.action is Scan
            &&& watched.action is ReadLogs
            &&& read.action is Fail || inspects(read.action, tree[index].path)
        }),
{
    let due = watcher::next_step(
        watcher,
        ReportView::Polled { outcome: PolledView::Nothing { now_ns } },
    );
    let scanned = watcher::next_step(due.watcher, ReportView::Scanned { tree, recent });
    let watched = if scanned.action is Register {
        watcher::next_step(scanned.watcher, ReportView::Registered { files: registered })
    } else {
        scanned
    };
    match watched.watcher.phase {
        PhaseView::Hydrating { added, .. } => {
            lemma_changed_log_is_inspected(
                watched.watcher,
                tree,
                recent,
                added,
                contents,
                index,
            );
        },
        _ => {},
    }
}

/// What is remembered of every log is sound.
pub open spec fn all_sound(files: Map<Seq<char>, FileStateView>) -> bool {
    forall|path: Seq<char>| session_laws::is_sound(#[trigger] file_map::entry(files, path))
}

proof fn lemma_bootstrap_keeps_sound(
    files: Map<Seq<char>, FileStateView>,
    logs: Seq<(Seq<char>, u64, u64)>,
)
    requires
        all_sound(files),
    ensures
        all_sound(state::bootstrapped(files, logs)),
    decreases logs.len(),
{
    if logs.len() > 0 {
        let before = state::bootstrapped(files, logs.drop_last());
        lemma_bootstrap_keeps_sound(files, logs.drop_last());
        assert forall|path: Seq<char>| session_laws::is_sound(
            #[trigger] file_map::entry(state::bootstrapped(files, logs), path),
        ) by {
            assert(session_laws::is_sound(file_map::entry(before, path)));
        }
    }
}

proof fn lemma_hydration_keeps_sound(
    files: Map<Seq<char>, FileStateView>,
    paths: Seq<Seq<char>>,
    contents: Seq<Seq<u8>>,
)
    requires
        all_sound(files),
    ensures
        all_sound(sync::hydrate_paths(files, paths, contents).files),
    decreases paths.len(),
{
    if paths.len() > 0 {
        let before = sync::hydrate_paths(files, paths.drop_last(), contents);
        lemma_hydration_keeps_sound(files, paths.drop_last(), contents);
        let known = file_map::entry(before.files, paths.last());
        assert(session_laws::is_sound(known));
        session_laws::law_hydration_keeps_state_sound(known, contents[before.searched as int]);
        assert forall|path: Seq<char>| session_laws::is_sound(
            #[trigger] file_map::entry(sync::hydrate_paths(files, paths, contents).files, path),
        ) by {
            assert(session_laws::is_sound(file_map::entry(before.files, path)));
        }
    }
}

proof fn lemma_sync_keeps_sound(files: Map<Seq<char>, FileStateView>, logs: Seq<SnapshotView>)
    requires
        all_sound(files),
    ensures
        all_sound(sync::sync_logs(files, logs).files),
    decreases logs.len(),
{
    if logs.len() > 0 {
        let before = sync::sync_logs(files, logs.drop_last());
        let log = logs.last();
        lemma_sync_keeps_sound(files, logs.drop_last());
        let known = file_map::entry(before.files, log.path);
        assert(session_laws::is_sound(known));
        session_laws::law_processing_keeps_state_sound(
            known,
            log.content,
            log.mtime_ns,
            log.size,
        );
        assert forall|path: Seq<char>| session_laws::is_sound(
            #[trigger] file_map::entry(sync::sync_logs(files, logs).files, path),
        ) by {
            assert(session_laws::is_sound(file_map::entry(before.files, path)));
        }
    }
}

proof fn lemma_forgetting_keeps_sound(files: Map<Seq<char>, FileStateView>, live: Set<Seq<char>>)
    requires
        all_sound(files),
    ensures
        all_sound(files.restrict(live)),
{
    assert forall|path: Seq<char>| session_laws::is_sound(
        #[trigger] file_map::entry(files.restrict(live), path),
    ) by {
        assert(session_laws::is_sound(file_map::entry(files, path)));
    }
}

/// Every step of the watcher keeps what is remembered of every log sound.
pub proof fn law_steps_keep_states_sound(watcher: WatcherView, report: ReportView)
    requires
        all_sound(watcher.state.files),
    ensures
        all_sound(watcher::next_step(watcher, report).watcher.state.files),
{
    match (watcher.phase, report) {
        (PhaseView::Scanning { .. }, ReportView::Scanned { tree, .. }) => {
            lemma_bootstrap_keeps_sound(watcher.state.files, watcher::bootstrap_logs(tree));
        },
        (PhaseView::Hydrating { tree, .. }, ReportView::LogsRead { contents }) => {
            let listing = watcher::live_listing(tree);
            lemma_hydration_keeps_sound(watcher.state.files, listing, contents);
            lemma_forgetting_keeps_sound(
                sync::hydrate_paths(watcher.state.files, listing, contents).files,
                watcher::live_paths_of(tree),
            );
        },
        (PhaseView::Inspecting { live }, ReportView::Inspected { logs }) => {
            lemma_sync_keeps_sound(watcher.state.files, logs);
            match live {
                Some(paths) => {
                    lemma_forgetting_keeps_sound(
                        sync::sync_logs(watcher.state.files, logs).files,
                        paths,
                    );
                },
                None => {},
            }
        },
        _ => {},
    }
}

} // verus!
