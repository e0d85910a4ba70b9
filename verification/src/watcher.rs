//! The course of the watcher: what it does next, given what came of what it did last.
//!
//! The watcher touches neither files nor clocks. Each step takes a report of what was done outside
//! and gives the action to do next; whoever drives the watcher does it and reports back.
use vstd::prelude::*;

use crate::models::{ApprovalEvent, EventView, PersistedState, StateView};
use crate::selection;
use crate::session_parser;
use crate::session_parser::{SessionError, SessionProblem};
use crate::session_tree;
use crate::session_tree::{SessionFileView, SessionTree};
use crate::state;
use crate::string_set;
use crate::string_set::StringSet;
use crate::sync;
use crate::sync::{LogSnapshot, SnapshotView};
use crate::text;

verus! {

/// How long after one look at all logs the next one is due, in nanoseconds.
pub const TOPOLOGY_RESCAN_INTERVAL_NS: u64 = 5_000_000_000;

/// Why the logs are looked at.
#[derive(Debug, Clone, Copy, PartialEq, Eq, Structural)]
pub enum Round {
    /// The watcher has just started; on the very first run all logs are taken as read.
    Startup { first_run: bool },
    /// It is time to look at all logs again.
    Reconcile,
}

/// What the watcher waits for.
#[derive(Debug)]
pub enum Phase {
    /// The list of all logs and of the recent sessions.
    Scanning { startup: bool },
    /// The contents of the logs whose metadata is missing.
    Hydrating { round: Round, tree: SessionTree, recent: Vec<String>, added: StringSet },
    /// The registration of the files to watch.
    Registering { round: Round, tree: SessionTree, recent: Vec<String>, desired: StringSet },
    /// The logs to read; once they are read, logs that are not in `live` are forgotten.
    Inspecting { live: Option<StringSet> },
    /// The time at which all logs were looked at.
    Timing { events: Vec<ApprovalEvent> },
    /// The saving of the state.
    Saving { events: Vec<ApprovalEvent>, stopping: bool },
    /// The delivery of events.
    Delivering,
    /// A change of a watched file.
    Polling,
    /// Nothing any more.
    Finished,
}

/// What a `Phase` holds.
pub enum PhaseView {
    Scanning { startup: bool },
    Hydrating {
        round: Round,
        tree: Seq<SessionFileView>,
        recent: Seq<Seq<char>>,
        added: Set<Seq<char>>,
    },
    Registering {
        round: Round,
        tree: Seq<SessionFileView>,
        recent: Seq<Seq<char>>,
        desired: Set<Seq<char>>,
    },
    Inspecting { live: Option<Set<Seq<char>>> },
    Timing { events: Seq<EventView> },
    Saving { events: Seq<EventView>, stopping: bool },
    Delivering,
    Polling,
    Finished,
}

impl View for Phase {
    type V = PhaseView;

    open spec fn view(&self) -> PhaseView {
        match self {
            Phase::Scanning { startup } => PhaseView::Scanning { startup: *startup },
            Phase::Hydrating { round, tree, recent, added } => PhaseView::Hydrating {
                round: *round,
                tree: tree@,
                recent: text::texts(recent@),
                added: added@,
            },
            Phase::Registering { round, tree, recent, desired } => PhaseView::Registering {
                round: *round,
                tree: tree@,
                recent: text::texts(recent@),
                desired: desired@,
            },
            Phase::Inspecting { live } => PhaseView::Inspecting {
                live: match live {
                    Some(paths) => Some(paths@),
                    None => None,
                },
            },
            Phase::Timing { events } => PhaseView::Timing {
                events: session_parser::event_views(events@),
            },
            Phase::Saving { events, stopping } => PhaseView::Saving {
                events: session_parser::event_views(events@),
                stopping: *stopping,
            },
            Phase::Delivering => PhaseView::Delivering,
            Phase::Polling => PhaseView::Polling,
            Phase::Finished => PhaseView::Finished,
        }
    }
}

/// What there is to do.
#[derive(Debug)]
pub enum Action {
    /// List all logs and the recent sessions.
    Scan,
    /// Read these logs.
    ReadLogs { paths: Vec<String> },
    /// Watch these files, and no others.
    Register { files: StringSet },
    /// Look up time and size of these logs, and read those that need reading.
    Inspect { paths: Vec<String> },
    /// Tell the time.
    ReadClock,
    /// Save the state.
    Save,
    /// Deliver these events, in this order.
    Deliver { events: Vec<ApprovalEvent> },
    /// Wait for a change of a watched file, or for the order to stop.
    Poll,
    /// Stop.
    Finish,
    /// Stop: a log could not be read.
    Fail { error: SessionError },
}

/// What an `Action` says.
pub enum ActionView {
    Scan,
    ReadLogs { paths: Seq<Seq<char>> },
    Register { files: Set<Seq<char>> },
    Inspect { paths: Seq<Seq<char>> },
    ReadClock,
    Save,
    Deliver { events: Seq<EventView> },
    Poll,
    Finish,
    Fail { error: SessionProblem },
}

impl View for Action {
    type V = ActionView;

    open spec fn view(&self) -> ActionView {
        match self {
            Action::Scan => ActionView::Scan,
            Action::ReadLogs { paths } => ActionView::ReadLogs { paths: text::texts(paths@) },
            Action::Register { files } => ActionView::Register { files: files@ },
            Action::Inspect { paths } => ActionView::Inspect { paths: text::texts(paths@) },
            Action::ReadClock => ActionView::ReadClock,
            Action::Save => ActionView::Save,
            Action::Deliver { events } => ActionView::Deliver {
                events: session_parser::event_views(events@),
            },
            Action::Poll => ActionView::Poll,
            Action::Finish => ActionView::Finish,
            Action::Fail { error } => ActionView::Fail { error: error@ },
        }
    }
}

/// What came of waiting for a change.
#[derive(Debug)]
pub enum Polled {
    /// A file has changed.
    Changed { path: String },
    /// Nothing happened up to the given time.
    Nothing { now_ns: u64 },
    /// Waiting failed.
    Failed,
}

/// What came of an action.
#[derive(Debug)]
pub enum Report {
    Scanned { tree: SessionTree, recent: Vec<String> },
    LogsRead { contents: Vec<Vec<u8>> },
    Registered { files: StringSet },
    Inspected { logs: Vec<LogSnapshot> },
    Clock { now_ns: u64 },
    Saved,
    Delivered,
    Polled { outcome: Polled },
    StopRequested,
}

/// What a `Polled` says.
pub enum PolledView {
    Changed { path: Seq<char> },
    Nothing { now_ns: u64 },
    Failed,
}

impl View for Polled {
    type V = PolledView;

    open spec fn view(&self) -> PolledView {
        match self {
            Polled::Changed { path } => PolledView::Changed { path: path@ },
            Polled::Nothing { now_ns } => PolledView::Nothing { now_ns: *now_ns },
            Polled::Failed => PolledView::Failed,
        }
    }
}

/// What a `Report` says.
pub enum ReportView {
    Scanned { tree: Seq<SessionFileView>, recent: Seq<Seq<char>> },
    LogsRead { contents: Seq<Seq<u8>> },
    Registered { files: Set<Seq<char>> },
    Inspected { logs: Seq<SnapshotView> },
    Clock { now_ns: u64 },
    Saved,
    Delivered,
    Polled { outcome: PolledView },
    StopRequested,
}

impl View for Report {
    type V = ReportView;

    open spec fn view(&self) -> ReportView {
        match self {
            Report::Scanned { tree, recent } => ReportView::Scanned {
                tree: tree@,
                recent: text::texts(recent@),
            },
            Report::LogsRead { contents } => ReportView::LogsRead {
                contents: sync::byte_views(contents@),
            },
            Report::Registered { files } => ReportView::Registered { files: files@ },
            Report::Inspected { logs } => ReportView::Inspected {
                logs: sync::snapshot_views(logs@),
            },
            Report::Clock { now_ns } => ReportView::Clock { now_ns: *now_ns },
            Report::Saved => ReportView::Saved,
            Report::Delivered => ReportView::Delivered,
            Report::Polled { outcome } => ReportView::Polled { outcome: outcome@ },
            Report::StopRequested => ReportView::StopRequested,
        }
    }
}

/// The watcher: what it remembers, the files it watches, whether it remembers anything that is not
/// saved yet, when it last looked at all logs, and what it waits for.
#[derive(Debug)]
pub struct Watcher {
    pub state: PersistedState,
    pub watched: StringSet,
    pub dirty: bool,
    pub last_reconcile_ns: u64,
    pub phase: Phase,
}

/// What a `Watcher` holds.
pub struct WatcherView {
    pub state: StateView,
    pub watched: Set<Seq<char>>,
    pub dirty: bool,
    pub last_reconcile_ns: u64,
    pub phase: PhaseView,
}

impl View for Watcher {
    type V = WatcherView;

    open spec fn view(&self) -> WatcherView {
        WatcherView {
            state: self.state@,
            watched: self.watched@,
            dirty: self.dirty,
            last_reconcile_ns: self.last_reconcile_ns,
            phase: self.phase@,
        }
    }
}

/// A watcher after a step, and what there is to do.
pub struct Step {
    pub watcher: WatcherView,
    pub action: ActionView,
}

/// The paths of a tree's logs, in order.
pub open spec fn live_listing(tree: Seq<SessionFileView>) -> Seq<Seq<char>> {
    string_set::listing_of(live_paths_of(tree))
}

/// The paths of a tree's logs.
pub open spec fn live_paths_of(tree: Seq<SessionFileView>) -> Set<Seq<char>> {
    session_tree::file_paths(tree).to_set()
}

/// Delivers events where there are any, and waits for a change then.
pub open spec fn deliver(watcher: WatcherView, events: Seq<EventView>) -> Step {
    if events.len() == 0 {
        Step {
            watcher: WatcherView { phase: PhaseView::Polling, ..watcher },
            action: ActionView::Poll,
        }
    } else {
        Step {
            watcher: WatcherView { phase: PhaseView::Delivering, ..watcher },
            action: ActionView::Deliver { events },
        }
    }
}

/// Saves what is not saved yet, and delivers events only then.
pub open spec fn settle(watcher: WatcherView, events: Seq<EventView>) -> Step {
    if watcher.dirty {
        Step {
            watcher: WatcherView {
                phase: PhaseView::Saving { events, stopping: false },
                ..watcher
            },
            action: ActionView::Save,
        }
    } else {
        deliver(watcher, events)
    }
}

/// Asks for the logs whose metadata is missing.
pub open spec fn begin_hydration(
    watcher: WatcherView,
    round: Round,
    tree: Seq<SessionFileView>,
    recent: Seq<Seq<char>>,
    added: Set<Seq<char>>,
) -> Step {
    Step {
        watcher: WatcherView {
            phase: PhaseView::Hydrating { round, tree, recent, added },
            ..watcher
        },
        action: ActionView::ReadLogs {
            paths: sync::missing_paths(watcher.state.files, live_listing(tree)),
        },
    }
}

/// Asks for the logs that have to be read: all of them on the very first run, and otherwise those
/// that were just added to the watched ones or have changed.
pub open spec fn begin_inspection(
    watcher: WatcherView,
    round: Round,
    tree: Seq<SessionFileView>,
    added: Set<Seq<char>>,
) -> Step {
    Step {
        watcher: WatcherView {
            phase: PhaseView::Inspecting {
                live: match round {
                    Round::Startup { .. } => None,
                    Round::Reconcile => Some(live_paths_of(tree)),
                },
            },
            ..watcher
        },
        action: ActionView::Inspect {
            paths: if round == (Round::Startup { first_run: true }) {
                session_tree::file_paths(tree)
            } else {
                selection::reconciled_paths(tree, watcher.state.files, added)
            },
        },
    }
}

/// What follows once the watched files are settled: on startup the logs are read, on a later round
/// their metadata comes first.
pub open spec fn after_watches(
    watcher: WatcherView,
    round: Round,
    tree: Seq<SessionFileView>,
    recent: Seq<Seq<char>>,
    added: Set<Seq<char>>,
) -> Step {
    match round {
        Round::Startup { .. } => begin_inspection(watcher, round, tree, added),
        Round::Reconcile => begin_hydration(watcher, round, tree, recent, added),
    }
}

/// Has the files registered that should be watched, where these are not watched already.
pub open spec fn choose_watches(
    watcher: WatcherView,
    round: Round,
    tree: Seq<SessionFileView>,
    recent: Seq<Seq<char>>,
) -> Step {
    let desired = selection::chosen_paths(tree, recent).to_set();
    if desired == watcher.watched {
        after_watches(watcher, round, tree, recent, Set::empty())
    } else {
        Step {
            watcher: WatcherView {
                phase: PhaseView::Registering { round, tree, recent, desired },
                ..watcher
            },
            action: ActionView::Register { files: desired },
        }
    }
}

/// The times and sizes of a tree's logs, with their paths.
pub open spec fn bootstrap_logs(tree: Seq<SessionFileView>) -> Seq<(Seq<char>, u64, u64)> {
    tree.map_values(|file: SessionFileView| (file.path, file.mtime_ns, file.size))
}

/// The start of a round, with the list of all logs at hand. On the very first run the logs are
/// taken as read.
pub open spec fn scanned(
    watcher: WatcherView,
    startup: bool,
    tree: Seq<SessionFileView>,
    recent: Seq<Seq<char>>,
) -> Step {
    if startup {
        let first_run = !watcher.state.initialized;
        let begun = if first_run {
            WatcherView {
                state: StateView {
                    initialized: true,
                    files: state::bootstrapped(watcher.state.files, bootstrap_logs(tree)),
                },
                dirty: true,
                ..watcher
            }
        } else {
            watcher
        };
        begin_hydration(begun, Round::Startup { first_run }, tree, recent, Set::empty())
    } else {
        choose_watches(watcher, Round::Reconcile, tree, recent)
    }
}

/// A watcher that had to give up because a log could not be read.
pub open spec fn failed(watcher: WatcherView, path: Seq<char>) -> Step {
    Step {
        watcher: WatcherView { phase: PhaseView::Finished, ..watcher },
        action: ActionView::Fail { error: SessionProblem::InvalidUtf8 { path } },
    }
}

/// What follows once the missing metadata was searched.
pub open spec fn logs_read(
    watcher: WatcherView,
    round: Round,
    tree: Seq<SessionFileView>,
    recent: Seq<Seq<char>>,
    added: Set<Seq<char>>,
    contents: Seq<Seq<u8>>,
) -> Step {
    let live = live_paths_of(tree);
    let progress = sync::hydrate_paths(watcher.state.files, live_listing(tree), contents);
    match progress.unreadable {
        None => {
            let hydrated = WatcherView {
                state: StateView { files: progress.files.restrict(live), ..watcher.state },
                dirty: watcher.dirty || progress.dirty || !progress.files.dom().subset_of(live),
                ..watcher
            };
            match round {
                Round::Startup { .. } => choose_watches(hydrated, round, tree, recent),
                Round::Reconcile => begin_inspection(hydrated, round, tree, added),
            }
        },
        Some(path) => failed(
            (WatcherView {
                state: StateView { files: progress.files, ..watcher.state },
                ..watcher
            }),
            path,
        ),
    }
}

/// What follows once files were registered to be watched.
pub open spec fn registered(
    watcher: WatcherView,
    round: Round,
    tree: Seq<SessionFileView>,
    recent: Seq<Seq<char>>,
    files: Set<Seq<char>>,
) -> Step {
    after_watches(
        (WatcherView { watched: files, ..watcher }),
        round,
        tree,
        recent,
        files.difference(watcher.watched),
    )
}

/// What follows once logs were read.
pub open spec fn inspected(
    watcher: WatcherView,
    live: Option<Set<Seq<char>>>,
    logs: Seq<SnapshotView>,
) -> Step {
    let progress = sync::sync_logs(watcher.state.files, logs);
    match (progress.unreadable, live) {
        (Some(path), _) => failed(
            (WatcherView {
                state: StateView { files: progress.files, ..watcher.state },
                ..watcher
            }),
            path,
        ),
        (None, Some(paths)) => Step {
            watcher: WatcherView {
                state: StateView { files: progress.files.restrict(paths), ..watcher.state },
                dirty: watcher.dirty || progress.dirty || !progress.files.dom().subset_of(paths),
                phase: PhaseView::Timing { events: progress.events },
                ..watcher
            },
            action: ActionView::ReadClock,
        },
        (None, None) => settle(
            (WatcherView {
                state: StateView { files: progress.files, ..watcher.state },
                dirty: watcher.dirty || progress.dirty,
                ..watcher
            }),
            progress.events,
        ),
    }
}

/// All logs have to be looked at again.
pub open spec fn is_reconcile_due(watcher: WatcherView, now_ns: u64) -> bool {
    now_ns - watcher.last_reconcile_ns >= TOPOLOGY_RESCAN_INTERVAL_NS
}

/// What follows once waiting for a change is over.
pub open spec fn polled(watcher: WatcherView, outcome: PolledView) -> Step {
    match outcome {
        PolledView::Changed { path } => Step {
            watcher: WatcherView { phase: PhaseView::Inspecting { live: None }, ..watcher },
            action: ActionView::Inspect { paths: seq![path] },
        },
        PolledView::Nothing { now_ns } => if is_reconcile_due(watcher, now_ns) {
            Step {
                watcher: WatcherView { phase: PhaseView::Scanning { startup: false }, ..watcher },
                action: ActionView::Scan,
            }
        } else {
            settle(watcher, Seq::empty())
        },
        PolledView::Failed => settle(watcher, Seq::empty()),
    }
}

/// What follows the order to stop: what is not saved yet is saved.
pub open spec fn stop_requested(watcher: WatcherView) -> Step {
    if watcher.dirty {
        Step {
            watcher: WatcherView {
                phase: PhaseView::Saving { events: Seq::empty(), stopping: true },
                ..watcher
            },
            action: ActionView::Save,
        }
    } else {
        Step {
            watcher: WatcherView { phase: PhaseView::Finished, ..watcher },
            action: ActionView::Finish,
        }
    }
}

/// What follows once the state was saved.
pub open spec fn saved(watcher: WatcherView, events: Seq<EventView>, stopping: bool) -> Step {
    let clean = WatcherView { dirty: false, ..watcher };
    if stopping {
        Step {
            watcher: WatcherView { phase: PhaseView::Finished, ..clean },
            action: ActionView::Finish,
        }
    } else {
        deliver(clean, events)
    }
}

/// The report that a watcher waits for. The contents of logs are those that were asked for.
pub open spec fn expects(watcher: WatcherView, report: ReportView) -> bool {
    match (watcher.phase, report) {
        (PhaseView::Scanning { .. }, ReportView::Scanned { .. }) => true,
        (PhaseView::Hydrating { tree, .. }, ReportView::LogsRead { contents }) => contents.len()
            == sync::missing_paths(watcher.state.files, live_listing(tree)).len(),
        (PhaseView::Registering { .. }, ReportView::Registered { .. }) => true,
        (PhaseView::Inspecting { .. }, ReportView::Inspected { .. }) => true,
        (PhaseView::Timing { .. }, ReportView::Clock { .. }) => true,
        (PhaseView::Saving { .. }, ReportView::Saved) => true,
        (PhaseView::Delivering, ReportView::Delivered) => true,
        (PhaseView::Polling, ReportView::Polled { .. }) => true,
        (PhaseView::Polling, ReportView::StopRequested) => true,
        _ => false,
    }
}

/// The step that follows a report.
pub open spec fn next_step(watcher: WatcherView, report: ReportView) -> Step {
    match (watcher.phase, report) {
        (PhaseView::Scanning { startup }, ReportView::Scanned { tree, recent }) => scanned(
            watcher,
            startup,
            tree,
            recent,
        ),
        (
            PhaseView::Hydrating { round, tree, recent, added },
            ReportView::LogsRead { contents },
        ) => logs_read(watcher, round, tree, recent, added, contents),
        (
            PhaseView::Registering { round, tree, recent, .. },
            ReportView::Registered { files },
        ) => registered(watcher, round, tree, recent, files),
        (PhaseView::Inspecting { live }, ReportView::Inspected { logs }) => inspected(
            watcher,
            live,
            logs,
        ),
        (PhaseView::Timing { events }, ReportView::Clock { now_ns }) => settle(
            (WatcherView { last_reconcile_ns: now_ns, ..watcher }),
            events,
        ),
        (PhaseView::Saving { events, stopping }, ReportView::Saved) => saved(
            watcher,
            events,
            stopping,
        ),
        (PhaseView::Delivering, ReportView::Delivered) => Step {
            watcher: WatcherView { phase: PhaseView::Polling, ..watcher },
            action: ActionView::Poll,
        },
        (PhaseView::Polling, ReportView::Polled { outcome }) => polled(watcher, outcome),
        (PhaseView::Polling, ReportView::StopRequested) => stop_requested(watcher),
        _ => Step { watcher, action: ActionView::Finish },
    }
}

/// The paths of a tree's logs, in the order of the tree.
fn tree_paths(tree: &SessionTree) -> (paths: Vec<String>)
    ensures
        text::texts(paths@) == session_tree::file_paths(tree@),
{
    let mut paths: Vec<String> = Vec::new();
    let mut i: usize = 0;
    while i < tree.files.len()
        invariant
            i <= tree.files@.len(),
            paths@.len() == i,
            forall|j: int| 0 <= j < i ==> (#[trigger] paths@[j])@ == tree.files@[j].path@,
        decreases tree.files@.len() - i,
    {
        paths.push(tree.files[i].path.clone());
        i += 1;
    }
    assert(text::texts(paths@) =~= session_tree::file_paths(tree@));
    paths
}

/// The times and sizes of a tree's logs, with their paths.
fn tree_logs(tree: &SessionTree) -> (logs: Vec<(String, u64, u64)>)
    ensures
        state::log_views(logs@) == bootstrap_logs(tree@),
{
    let mut logs: Vec<(String, u64, u64)> = Vec::new();
    let mut i: usize = 0;
    while i < tree.files.len()
        invariant
            i <= tree.files@.len(),
            logs@.len() == i,
            forall|j: int|
                0 <= j < i ==> (#[trigger] logs@[j]).0@ == tree.files@[j].path@ && logs@[j].1
                    == tree.files@[j].mtime_ns && logs@[j].2 == tree.files@[j].size,
        decreases tree.files@.len() - i,
    {
        let file = &tree.files[i];
        logs.push((file.path.clone(), file.mtime_ns, file.size));
        i += 1;
    }
    assert(state::log_views(logs@) =~= bootstrap_logs(tree@));
    logs
}

impl Watcher {
    /// A watcher that starts from what the state file held. The first thing to do is to list all
    /// logs.
    pub fn start(stored: Option<PersistedState>, now_ns: u64) -> (started: (Watcher, Action))
        ensures
            started.0@ == (WatcherView {
                state: match stored {
                    Some(found) => found@,
                    None => StateView::blank(),
                },
                watched: Set::empty(),
                dirty: false,
                last_reconcile_ns: now_ns,
                phase: PhaseView::Scanning { startup: true },
            }),
            started.1@ == ActionView::Scan,
    {
        let watcher = Watcher {
            state: state::load_state(stored),
            watched: StringSet::new(),
            dirty: false,
            last_reconcile_ns: now_ns,
            phase: Phase::Scanning { startup: true },
        };
        (watcher, Action::Scan)
    }

    fn deliver(&mut self, events: Vec<ApprovalEvent>) -> (action: Action)
        ensures
            (Step { watcher: final(self)@, action: action@ }) == deliver(
                old(self)@,
                session_parser::event_views(events@),
            ),
    {
        if events.len() == 0 {
            self.phase = Phase::Polling;
            Action::Poll
        } else {
            self.phase = Phase::Delivering;
            Action::Deliver { events }
        }
    }

    fn settle(&mut self, events: Vec<ApprovalEvent>) -> (action: Action)
        ensures
            (Step { watcher: final(self)@, action: action@ }) == settle(
                old(self)@,
                session_parser::event_views(events@),
            ),
    {
        if self.dirty {
            self.phase = Phase::Saving { events, stopping: false };
            Action::Save
        } else {
            self.deliver(events)
        }
    }

    fn settle_quietly(&mut self) -> (action: Action)
        ensures
            (Step { watcher: final(self)@, action: action@ }) == settle(old(self)@, Seq::empty()),
    {
        let events: Vec<ApprovalEvent> = Vec::new();
        assert(session_parser::event_views(events@) =~= Seq::empty());
        self.settle(events)
    }

    fn begin_hydration(
        &mut self,
        round: Round,
        tree: SessionTree,
        recent: Vec<String>,
        added: StringSet,
    ) -> (action: Action)
        ensures
            (Step { watcher: final(self)@, action: action@ }) == begin_hydration(
                old(self)@,
                round,
                tree@,
                text::texts(recent@),
                added@,
            ),
    {
        let paths = sync::paths_to_hydrate(&tree.files, &self.state);
        self.phase = Phase::Hydrating { round, tree, recent, added };
        Action::ReadLogs { paths }
    }

    fn begin_inspection(&mut self, round: Round, tree: &SessionTree, added: &StringSet) -> (action:
        Action)
        ensures
            (Step { watcher: final(self)@, action: action@ }) == begin_inspection(
                old(self)@,
                round,
                tree@,
                added@,
            ),
    {
        let paths = if round == (Round::Startup { first_run: true }) {
            tree_paths(tree)
        } else {
            selection::reconcile_scan_paths(tree, &self.state, added)
        };
        let live = match round {
            Round::Startup { .. } => None,
            Round::Reconcile => Some(sync::live_paths(&tree.files)),
        };
        self.phase = Phase::Inspecting { live };
        Action::Inspect { paths }
    }

    fn after_watches(
        &mut self,
        round: Round,
        tree: SessionTree,
        recent: Vec<String>,
        added: StringSet,
    ) -> (action: Action)
        ensures
            (Step { watcher: final(self)@, action: action@ }) == after_watches(
                old(self)@,
                round,
                tree@,
                text::texts(recent@),
                added@,
            ),
    {
        match round {
            Round::Startup { .. } => self.begin_inspection(round, &tree, &added),
            Round::Reconcile => self.begin_hydration(round, tree, recent, added),
        }
    }

    fn choose_watches(&mut self, round: Round, tree: SessionTree, recent: Vec<String>) -> (action:
        Action)
        ensures
            (Step { watcher: final(self)@, action: action@ }) == choose_watches(
                old(self)@,
                round,
                tree@,
                text::texts(recent@),
            ),
    {
        match selection::watch_change(&tree, &recent, &self.watched) {
            Some(desired) => {
                let files = desired.clone();
                self.phase = Phase::Registering { round, tree, recent, desired };
                Action::Register { files }
            },
            None => {
                let added = StringSet::new();
                self.after_watches(round, tree, recent, added)
            },
        }
    }

    fn scanned(&mut self, startup: bool, tree: SessionTree, recent: Vec<String>) -> (action: Action)
        ensures
            (Step { watcher: final(self)@, action: action@ }) == scanned(
                old(self)@,
                startup,
                tree@,
                text::texts(recent@),
            ),
    {
        if startup {
            let first_run = !self.state.initialized;
            if first_run {
                let logs = tree_logs(&tree);
                state::bootstrap_existing_files(&mut self.state, &logs);
                self.dirty = true;
            }
            let added = StringSet::new();
            self.begin_hydration(Round::Startup { first_run }, tree, recent, added)
        } else {
            self.choose_watches(Round::Reconcile, tree, recent)
        }
    }

    fn fail(&mut self, error: SessionError) -> (action: Action)
        ensures
            error@ matches SessionProblem::InvalidUtf8 { path } && (Step {
                watcher: final(self)@,
                action: action@,
            }) == failed(old(self)@, path),
    {
        self.phase = Phase::Finished;
        Action::Fail { error }
    }

    fn logs_read(
        &mut self,
        round: Round,
        tree: SessionTree,
        recent: Vec<String>,
        added: StringSet,
        contents: Vec<Vec<u8>>,
    ) -> (action: Action)
        requires
            contents@.len() == sync::missing_paths(
                old(self)@.state.files,
                live_listing(tree@),
            ).len(),
        ensures
            (Step { watcher: final(self)@, action: action@ }) == logs_read(
                old(self)@,
                round,
                tree@,
                text::texts(recent@),
                added@,
                sync::byte_views(contents@),
            ),
    {
        match sync::hydrate_missing_metadata(&tree.files, &contents, &mut self.state) {
            Ok(changed) => {
                if changed {
                    self.dirty = true;
                }
                match round {
                    Round::Startup { .. } => self.choose_watches(round, tree, recent),
                    Round::Reconcile => self.begin_inspection(round, &tree, &added),
                }
            },
            Err(error) => self.fail(error),
        }
    }

    fn registered(
        &mut self,
        round: Round,
        tree: SessionTree,
        recent: Vec<String>,
        desired: StringSet,
        files: StringSet,
    ) -> (action: Action)
        ensures
            (Step { watcher: final(self)@, action: action@ }) == registered(
                old(self)@,
                round,
                tree@,
                text::texts(recent@),
                files@,
            ),
    {
        let added = selection::apply_watch_registration(&mut self.watched, &desired, &files);
        self.after_watches(round, tree, recent, added)
    }

    fn inspected(&mut self, live: Option<StringSet>, logs: Vec<LogSnapshot>) -> (action: Action)
        ensures
            (Step { watcher: final(self)@, action: action@ }) == inspected(
                old(self)@,
                match live {
                    Some(paths) => Some(paths@),
                    None => None,
                },
                sync::snapshot_views(logs@),
            ),
    {
        match sync::sync_session_files(&logs, &mut self.state) {
            Ok((changed, events)) => {
                if changed {
                    self.dirty = true;
                }
                match live {
                    Some(paths) => {
                        if state::prune_deleted_files(&mut self.state, &paths) {
                            self.dirty = true;
                        }
                        self.phase = Phase::Timing { events };
                        Action::ReadClock
                    },
                    None => self.settle(events),
                }
            },
            Err(error) => self.fail(error),
        }
    }

    fn polled(&mut self, outcome: Polled) -> (action: Action)
        ensures
            (Step { watcher: final(self)@, action: action@ }) == polled(old(self)@, outcome@),
    {
        match outcome {
            Polled::Changed { path } => {
                let mut paths: Vec<String> = Vec::new();
                paths.push(path);
                assert(text::texts(paths@) =~= seq![path@]);
                self.phase = Phase::Inspecting { live: None };
                Action::Inspect { paths }
            },
            Polled::Nothing { now_ns } => {
                if now_ns >= self.last_reconcile_ns && now_ns - self.last_reconcile_ns
                    >= TOPOLOGY_RESCAN_INTERVAL_NS {
                    self.phase = Phase::Scanning { startup: false };
                    Action::Scan
                } else {
                    self.settle_quietly()
                }
            },
            Polled::Failed => self.settle_quietly(),
        }
    }

    fn stop_requested(&mut self) -> (action: Action)
        ensures
            (Step { watcher: final(self)@, action: action@ }) == stop_requested(old(self)@),
    {
        if self.dirty {
            let events: Vec<ApprovalEvent> = Vec::new();
            assert(session_parser::event_views(events@) =~= Seq::empty());
            self.phase = Phase::Saving { events, stopping: true };
            Action::Save
        } else {
            self.phase = Phase::Finished;
            Action::Finish
        }
    }

    fn saved(&mut self, events: Vec<ApprovalEvent>, stopping: bool) -> (action: Action)
        ensures
            (Step { watcher: final(self)@, action: action@ }) == saved(
                old(self)@,
                session_parser::event_views(events@),
                stopping,
            ),
    {
        self.dirty = false;
        if stopping {
            self.phase = Phase::Finished;
            Action::Finish
        } else {
            self.deliver(events)
        }
    }

    /// Whether a report is one that the watcher waits for.
    pub fn accepts(&self, report: &Report) -> (accepted: bool)
        ensures
            accepted == expects(self@, report@),
    {
        match (&self.phase, report) {
            (Phase::Scanning { .. }, Report::Scanned { .. }) => true,
            (Phase::Hydrating { tree, .. }, Report::LogsRead { contents }) => {
                let paths = sync::paths_to_hydrate(&tree.files, &self.state);
                contents.len() == paths.len()
            },
            (Phase::Registering { .. }, Report::Registered { .. }) => true,
            (Phase::Inspecting { .. }, Report::Inspected { .. }) => true,
            (Phase::Timing { .. }, Report::Clock { .. }) => true,
            (Phase::Saving { .. }, Report::Saved) => true,
            (Phase::Delivering, Report::Delivered) => true,
            (Phase::Polling, Report::Polled { .. }) => true,
            (Phase::Polling, Report::StopRequested) => true,
            _ => false,
        }
    }

    /// Takes the report of what was done, and gives what there is to do next.
    pub fn step(&mut self, report: Report) -> (action: Action)
        requires
            expects(old(self)@, report@),
        ensures
            (Step { watcher: final(self)@, action: action@ }) == next_step(old(self)@, report@),
    {
        let mut phase = Phase::Finished;
        std::mem::swap(&mut phase, &mut self.phase);
        match (phase, report) {
            (Phase::Scanning { startup }, Report::Scanned { tree, recent }) => self.scanned(
                startup,
                tree,
                recent,
            ),
            (
                Phase::Hydrating { round, tree, recent, added },
                Report::LogsRead { contents },
            ) => self.logs_read(round, tree, recent, added, contents),
            (
                Phase::Registering { round, tree, recent, desired },
                Report::Registered { files },
            ) => self.registered(round, tree, recent, desired, files),
            (Phase::Inspecting { live }, Report::Inspected { logs }) => self.inspected(live, logs),
            (Phase::Timing { events }, Report::Clock { now_ns }) => {
                self.last_reconcile_ns = now_ns;
                self.settle(events)
            },
            (Phase::Saving { events, stopping }, Report::Saved) => self.saved(events, stopping),
            (Phase::Delivering, Report::Delivered) => {
                self.phase = Phase::Polling;
                Action::Poll
            },
            (Phase::Polling, Report::Polled { outcome }) => self.polled(outcome),
            (Phase::Polling, Report::StopRequested) => self.stop_requested(),
            _ => Action::Finish,
        }
    }
}

} // verus!
