//! The course of the watcher, step by step: what each report leads to, stated on what the watcher
//! holds before and after it.
use vstd::prelude::*;

use crate::models::{EventView, FileStateView, StateView};
use crate::selection;
use crate::session_parser::SessionProblem;
use crate::session_tree;
use crate::session_tree::SessionFileView;
use crate::state;
use crate::string_set;
use crate::sync;
use crate::sync::SnapshotView;
use crate::watcher;
use crate::watcher::{ActionView, PhaseView, PolledView, ReportView, Round, Step, WatcherView};

verus! {

/// The paths of logs: all of them and no others.
pub open spec fn are_paths_of(paths: Set<Seq<char>>, tree: Seq<SessionFileView>) -> bool {
    forall|path: Seq<char>| #[trigger]
        paths.contains(path) <==> exists|i: int|
            0 <= i < tree.len() && (#[trigger] tree[i]).path == path
}

/// The paths of logs, one for one.
pub open spec fn lists_paths_of(paths: Seq<Seq<char>>, tree: Seq<SessionFileView>) -> bool {
    &&& paths.len() == tree.len()
    &&& forall|i: int| 0 <= i < tree.len() ==> #[trigger] paths[i] == tree[i].path
}

/// The files to watch for a list of logs and of recent sessions.
pub open spec fn to_watch(tree: Seq<SessionFileView>, recent: Seq<Seq<char>>) -> Set<Seq<char>> {
    selection::chosen_paths(tree, recent).to_set()
}

/// The live paths of a tree are the paths of its logs.
pub proof fn law_live_paths(tree: Seq<SessionFileView>)
    ensures
        are_paths_of(watcher::live_paths_of(tree), tree),
        watcher::live_listing(tree) == string_set::listing_of(watcher::live_paths_of(tree)),
{
    let all = session_tree::file_paths(tree);
    let live = watcher::live_paths_of(tree);
    assert forall|path: Seq<char>| #[trigger] live.contains(path) <==> exists|i: int|
        0 <= i < tree.len() && (#[trigger] tree[i]).path == path by {
        if live.contains(path) {
            let i = choose|i: int| 0 <= i < all.len() && all[i] == path;
            assert(tree[i].path == path);
        }
        if exists|i: int| 0 <= i < tree.len() && (#[trigger] tree[i]).path == path {
            let i = choose|i: int| 0 <= i < tree.len() && (#[trigger] tree[i]).path == path;
            assert(all[i] == path);
        }
    }
}

/// Nothing that the watcher holds has changed but what it waits for.
pub open spec fn only_waits_for(before: WatcherView, after: WatcherView, phase: PhaseView) -> bool {
    &&& after.state == before.state
    &&& after.watched == before.watched
    &&& after.dirty == before.dirty
    &&& after.last_reconcile_ns == before.last_reconcile_ns
    &&& after.phase == phase
}

/// A step that saves where something is unsaved, else delivers events where there are any, and else
/// waits for a change. `holding` is what the watcher holds by then.
pub open spec fn saves_delivers_or_waits(
    step: Step,
    holding: WatcherView,
    events: Seq<EventView>,
) -> bool {
    if holding.dirty {
        &&& step.action is Save
        &&& only_waits_for(holding, step.watcher, PhaseView::Saving { events, stopping: false })
    } else if events.len() > 0 {
        &&& step.action == (ActionView::Deliver { events })
        &&& only_waits_for(holding, step.watcher, PhaseView::Delivering)
    } else {
        &&& step.action is Poll
        &&& only_waits_for(holding, step.watcher, PhaseView::Polling)
    }
}

/// A step that asks for the logs whose metadata is missing.
pub open spec fn asks_for_metadata(
    step: Step,
    holding: WatcherView,
    round: Round,
    tree: Seq<SessionFileView>,
    recent: Seq<Seq<char>>,
    added: Set<Seq<char>>,
) -> bool {
    &&& step.action == (ActionView::ReadLogs {
        paths: sync::missing_paths(
            holding.state.files,
            string_set::listing_of(watcher::live_paths_of(tree)),
        ),
    })
    &&& only_waits_for(
        holding,
        step.watcher,
        PhaseView::Hydrating { round, tree, recent, added },
    )
}

/// A step that asks for logs to be read: all of them on the very first run, and otherwise those that
/// are news. On a later round the logs that are there are remembered with it.
pub open spec fn asks_for_logs(
    step: Step,
    holding: WatcherView,
    round: Round,
    tree: Seq<SessionFileView>,
    added: Set<Seq<char>>,
) -> bool {
    &&& step.action is Inspect
    &&& match round {
        Round::Startup { first_run } => {
            &&& only_waits_for(holding, step.watcher, PhaseView::Inspecting { live: None })
            &&& first_run ==> lists_paths_of(step.action->Inspect_paths, tree)
            &&& !first_run ==> step.action->Inspect_paths == selection::reconciled_paths(
                tree,
                holding.state.files,
                added,
            )
        },
        Round::Reconcile => {
            &&& only_waits_for(
                holding,
                step.watcher,
                PhaseView::Inspecting { live: Some(watcher::live_paths_of(tree)) },
            )
            &&& step.action->Inspect_paths == selection::reconciled_paths(
                tree,
                holding.state.files,
                added,
            )
        },
    }
}

/// A step that has the files to watch registered, unless just these are watched; then it goes on as
/// if none had been added.
pub open spec fn settles_watches(
    step: Step,
    holding: WatcherView,
    round: Round,
    tree: Seq<SessionFileView>,
    recent: Seq<Seq<char>>,
) -> bool {
    let desired = to_watch(tree, recent);
    if holding.watched != desired {
        &&& step.action == (ActionView::Register { files: desired })
        &&& only_waits_for(
            holding,
            step.watcher,
            PhaseView::Registering { round, tree, recent, desired },
        )
    } else {
        match round {
            Round::Startup { .. } => asks_for_logs(step, holding, round, tree, Set::empty()),
            Round::Reconcile => asks_for_metadata(
                step,
                holding,
                round,
                tree,
                recent,
                Set::empty(),
            ),
        }
    }
}

/// On startup the list of logs leads to the search for missing metadata. On the very first run each
/// log is taken as read before that, which has to be saved; otherwise nothing changes.
pub proof fn law_startup(
    watcher: WatcherView,
    tree: Seq<SessionFileView>,
    recent: Seq<Seq<char>>,
    logs: Seq<(Seq<char>, u64, u64)>,
)
    requires
        watcher.phase == (PhaseView::Scanning { startup: true }),
        logs.len() == tree.len(),
        forall|i: int|
            0 <= i < tree.len() ==> #[trigger] logs[i] == (
                tree[i].path,
                tree[i].mtime_ns,
                tree[i].size,
            ),
    ensures
        ({
            let step = watcher::next_step(watcher, ReportView::Scanned { tree, recent });
            let holding = if watcher.state.initialized {
                watcher
            } else {
                WatcherView {
                    state: StateView {
                        initialized: true,
                        files: state::bootstrapped(watcher.state.files, logs),
                    },
                    dirty: true,
                    ..watcher
                }
            };
            asks_for_metadata(
                step,
                holding,
                Round::Startup { first_run: !watcher.state.initialized },
                tree,
                recent,
                Set::empty(),
            )
        }),
{
    assert(watcher::bootstrap_logs(tree) =~= logs);
}

/// On a later round the list of logs leads to the registration of the files to watch, where these
/// are not watched already, and else to the search for missing metadata.
pub proof fn law_later_round(
    watcher: WatcherView,
    tree: Seq<SessionFileView>,
    recent: Seq<Seq<char>>,
)
    requires
        watcher.phase == (PhaseView::Scanning { startup: false }),
    ensures
        settles_watches(
            watcher::next_step(watcher, ReportView::Scanned { tree, recent }),
            watcher,
            Round::Reconcile,
            tree,
            recent,
        ),
{
}

/// Once files were registered these are the watched ones, and those of them that were not watched
/// before are the added ones. On startup the logs are read then; on a later round their metadata
/// comes first.
pub proof fn law_registration(
    watcher: WatcherView,
    round: Round,
    tree: Seq<SessionFileView>,
    recent: Seq<Seq<char>>,
    desired: Set<Seq<char>>,
    files: Set<Seq<char>>,
    added: Set<Seq<char>>,
)
    requires
        watcher.phase == (PhaseView::Registering { round, tree, recent, desired }),
        forall|path: Seq<char>| #[trigger]
            added.contains(path) <==> files.contains(path) && !watcher.watched.contains(path),
    ensures
        ({
            let step = watcher::next_step(watcher, ReportView::Registered { files });
            let holding = WatcherView { watched: files, ..watcher };
            match round {
                Round::Startup { .. } => asks_for_logs(step, holding, round, tree, added),
                Round::Reconcile => asks_for_metadata(step, holding, round, tree, recent, added),
            }
        }),
{
    assert(files.difference(watcher.watched) =~= added);
}

/// What was remembered of logs that are gone is forgotten, and nothing else is.
pub open spec fn keeps_live(
    before: Map<Seq<char>, FileStateView>,
    after: Map<Seq<char>, FileStateView>,
    live: Set<Seq<char>>,
) -> bool {
    &&& forall|path: Seq<char>| #[trigger]
        after.contains_key(path) <==> before.contains_key(path) && live.contains(path)
    &&& forall|path: Seq<char>| #[trigger]
        after.contains_key(path) ==> after[path] == before[path]
}

/// Something is remembered of a log that is gone.
pub open spec fn remembers_gone_log(
    files: Map<Seq<char>, FileStateView>,
    live: Set<Seq<char>>,
) -> bool {
    exists|path: Seq<char>| #[trigger] files.contains_key(path) && !live.contains(path)
}

/// Restricting what is remembered to the logs that are there.
proof fn lemma_keeping_live(files: Map<Seq<char>, FileStateView>, live: Set<Seq<char>>)
    ensures
        keeps_live(files, files.restrict(live), live),
        remembers_gone_log(files, live) <==> !files.dom().subset_of(live),
{
    if !files.dom().subset_of(live) {
        let path = choose|path: Seq<char>| files.dom().contains(path) && !live.contains(path);
        assert(files.contains_key(path));
    }
}

/// Once missing metadata was searched, what was found is remembered, and logs that are gone are
/// forgotten; there is something to save where there was before, where something was found, and
/// where something was forgotten. On startup the files to watch come next; on a later round the logs
/// that are news are read. A log that is no text ends the course, and it is named.
pub proof fn law_metadata_search(
    watcher: WatcherView,
    round: Round,
    tree: Seq<SessionFileView>,
    recent: Seq<Seq<char>>,
    added: Set<Seq<char>>,
    contents: Seq<Seq<u8>>,
)
    requires
        watcher.phase == (PhaseView::Hydrating { round, tree, recent, added }),
    ensures
        ({
            let step = watcher::next_step(watcher, ReportView::LogsRead { contents });
            let live = watcher::live_paths_of(tree);
            let progress = sync::hydrate_paths(
                watcher.state.files,
                string_set::listing_of(live),
                contents,
            );
            let holding = WatcherView {
                state: StateView { files: step.watcher.state.files, ..watcher.state },
                dirty: watcher.dirty || progress.dirty || remembers_gone_log(progress.files, live),
                ..watcher
            };
            match progress.unreadable {
                Some(path) => {
                    &&& step.action == (ActionView::Fail {
                        error: SessionProblem::InvalidUtf8 { path },
                    })
                    &&& only_waits_for(
                        (WatcherView {
                            state: StateView { files: progress.files, ..watcher.state },
                            ..watcher
                        }),
                        step.watcher,
                        PhaseView::Finished,
                    )
                },
                None => {
                    &&& keeps_live(progress.files, step.watcher.state.files, live)
                    &&& match round {
                        Round::Startup { .. } => settles_watches(
                            step,
                            holding,
                            round,
                            tree,
                            recent,
                        ),
                        Round::Reconcile => asks_for_logs(step, holding, round, tree, added),
                    }
                },
            }
        }),
{
    let live = watcher::live_paths_of(tree);
    let progress = sync::hydrate_paths(
        watcher.state.files,
        string_set::listing_of(live),
        contents,
    );
    lemma_keeping_live(progress.files, live);
}

/// Once logs were read, what is known of them is remembered. On startup and after a wake-up, what is
/// unsaved is saved and the events are delivered. On a later round logs that are gone are forgotten,
/// and the time is asked for before that. A log that is no text ends the course, and it is named.
pub proof fn law_inspection(
    watcher: WatcherView,
    live: Option<Set<Seq<char>>>,
    logs: Seq<SnapshotView>,
)
    requires
        watcher.phase == (PhaseView::Inspecting { live }),
    ensures
        ({
            let step = watcher::next_step(watcher, ReportView::Inspected { logs });
            let progress = sync::sync_logs(watcher.state.files, logs);
            match (progress.unreadable, live) {
                (Some(path), _) => {
                    &&& step.action == (ActionView::Fail {
                        error: SessionProblem::InvalidUtf8 { path },
                    })
                    &&& only_waits_for(
                        (WatcherView {
                            state: StateView { files: progress.files, ..watcher.state },
                            ..watcher
                        }),
                        step.watcher,
                        PhaseView::Finished,
                    )
                },
                (None, None) => saves_delivers_or_waits(
                    step,
                    (WatcherView {
                        state: StateView { files: progress.files, ..watcher.state },
                        dirty: watcher.dirty || progress.dirty,
                        ..watcher
                    }),
                    progress.events,
                ),
                (None, Some(paths)) => {
                    &&& step.action is ReadClock
                    &&& keeps_live(progress.files, step.watcher.state.files, paths)
                    &&& step.watcher.state.initialized == watcher.state.initialized
                    &&& step.watcher.dirty <==> watcher.dirty || progress.dirty
                        || remembers_gone_log(progress.files, paths)
                    &&& step.watcher.watched == watcher.watched
                    &&& step.watcher.last_reconcile_ns == watcher.last_reconcile_ns
                    &&& step.watcher.phase == (PhaseView::Timing { events: progress.events })
                },
            }
        }),
{
    let progress = sync::sync_logs(watcher.state.files, logs);
    match live {
        Some(paths) => lemma_keeping_live(progress.files, paths),
        None => {},
    }
}

/// The time that is told after a later round is that of the round; what is unsaved is saved then and
/// the events are delivered.
pub proof fn law_end_of_round(watcher: WatcherView, events: Seq<EventView>, now_ns: u64)
    requires
        watcher.phase == (PhaseView::Timing { events }),
    ensures
        saves_delivers_or_waits(
            watcher::next_step(watcher, ReportView::Clock { now_ns }),
            (WatcherView { last_reconcile_ns: now_ns, ..watcher }),
            events,
        ),
{
}

/// Once saved nothing is unsaved. The events that waited for it are delivered, or the watcher stops
/// where it was ordered to.
pub proof fn law_after_saving(watcher: WatcherView, events: Seq<EventView>, stopping: bool)
    requires
        watcher.phase == (PhaseView::Saving { events, stopping }),
    ensures
        ({
            let step = watcher::next_step(watcher, ReportView::Saved);
            let holding = WatcherView { dirty: false, ..watcher };
            if stopping {
                &&& step.action is Finish
                &&& only_waits_for(holding, step.watcher, PhaseView::Finished)
            } else {
                saves_delivers_or_waits(step, holding, events)
            }
        }),
{
}

/// After a delivery the watcher waits for a change.
pub proof fn law_after_delivery(watcher: WatcherView)
    requires
        watcher.phase is Delivering,
    ensures
        ({
            let step = watcher::next_step(watcher, ReportView::Delivered);
            &&& step.action is Poll
            &&& only_waits_for(watcher, step.watcher, PhaseView::Polling)
        }),
{
}

/// A changed file is read at once, and it alone. Where nothing has happened, all logs are listed
/// anew as soon as five seconds have passed since the last round, and not before; otherwise, and
/// where waiting failed, what is unsaved is saved and the watcher waits again.
pub proof fn law_wake_ups(watcher: WatcherView, path: Seq<char>, now_ns: u64)
    requires
        watcher.phase is Polling,
    ensures
        ({
            let changed = watcher::next_step(
                watcher,
                ReportView::Polled { outcome: PolledView::Changed { path } },
            );
            let nothing = watcher::next_step(
                watcher,
                ReportView::Polled { outcome: PolledView::Nothing { now_ns } },
            );
            let failed = watcher::next_step(
                watcher,
                ReportView::Polled { outcome: PolledView::Failed },
            );
            &&& changed.action == (ActionView::Inspect { paths: seq![path] })
            &&& only_waits_for(watcher, changed.watcher, PhaseView::Inspecting { live: None })
            &&& now_ns - watcher.last_reconcile_ns >= 5_000_000_000 ==> nothing.action is Scan
                && only_waits_for(
                watcher,
                nothing.watcher,
                PhaseView::Scanning { startup: false },
            )
            &&& now_ns - watcher.last_reconcile_ns < 5_000_000_000 ==> saves_delivers_or_waits(
                nothing,
                watcher,
                Seq::empty(),
            )
            &&& saves_delivers_or_waits(failed, watcher, Seq::empty())
        }),
{
}

/// An order to stop ends the course, once what is unsaved is saved.
pub proof fn law_order_to_stop(watcher: WatcherView)
    requires
        watcher.phase is Polling,
    ensures
        ({
            let step = watcher::next_step(watcher, ReportView::StopRequested);
            if watcher.dirty {
                &&& step.action is Save
                &&& only_waits_for(
                    watcher,
                    step.watcher,
                    PhaseView::Saving { events: Seq::empty(), stopping: true },
                )
            } else {
                &&& step.action is Finish
                &&& only_waits_for(watcher, step.watcher, PhaseView::Finished)
            }
        }),
{
}

/// The watcher accepts the report that it waits for, and while it waits for a change also the order
/// to stop; the contents of logs it accepts where they are as many as it asked for.
pub proof fn law_accepted_reports(watcher: WatcherView, report: ReportView)
    ensures
        watcher::expects(watcher, report) <==> match report {
            ReportView::Scanned { .. } => watcher.phase is Scanning,
            ReportView::LogsRead { contents } => watcher.phase is Hydrating && contents.len()
                == sync::missing_paths(
                watcher.state.files,
                string_set::listing_of(watcher::live_paths_of(watcher.phase->Hydrating_tree)),
            ).len(),
            ReportView::Registered { .. } => watcher.phase is Registering,
            ReportView::Inspected { .. } => watcher.phase is Inspecting,
            ReportView::Clock { .. } => watcher.phase is Timing,
            ReportView::Saved => watcher.phase is Saving,
            ReportView::Delivered => watcher.phase is Delivering,
            ReportView::Polled { .. } => watcher.phase is Polling,
            ReportView::StopRequested => watcher.phase is Polling,
        },
{
}

/// A round is due as soon as five seconds have passed since the last one.
pub proof fn law_rounds_are_due(watcher: WatcherView, now_ns: u64)
    ensures
        watcher::is_reconcile_due(watcher, now_ns) <==> now_ns >= watcher.last_reconcile_ns
            + 5_000_000_000,
{
}

} // verus!
