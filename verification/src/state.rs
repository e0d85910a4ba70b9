//! What is remembered from one run to the next.
use vstd::prelude::*;

use crate::models::{EventView, FileState, FileStateView, PersistedState, StateView};
use crate::paths;
use crate::session_laws;
use crate::session_parser;
use crate::string_set::StringSet;
use crate::text;

verus! {

/// The state to start with: what the state file held, or a blank one where it could not be read
/// or understood.
pub fn load_state(stored: Option<PersistedState>) -> (state: PersistedState)
    ensures
        stored matches Some(found) ==> state@ == found@,
        stored is None ==> state@ == StateView::blank(),
{
    match stored {
        Some(found) => found,
        None => PersistedState::default(),
    }
}

/// How a state is written: the directory that has to be there, and the file that is written first
/// and then renamed to the state file.
#[derive(Debug)]
pub struct SaveSteps {
    pub directory: Option<String>,
    pub temp_path: String,
}

/// The steps that replace the state file at `path` as a whole.
pub fn save_state(path: &str) -> (steps: SaveSteps)
    ensures
        text::optional_text(steps.directory) == paths::parent_of(path@),
        steps.temp_path@ == paths::extended(path@, "tmp"@),
{
    proof {
        reveal_strlit("tmp");
    }
    SaveSteps { directory: paths::parent(path), temp_path: paths::with_extension(path, "tmp") }
}

/// Forgets the logs that are gone, and tells whether there were any.
pub fn prune_deleted_files(state: &mut PersistedState, live_paths: &StringSet) -> (removed: bool)
    ensures
        final(state)@ == (StateView { files: old(state)@.files.restrict(live_paths@), ..old(state)@ }),
        removed == !old(state)@.files.dom().subset_of(live_paths@),
{
    state.files.keep_only(live_paths)
}

/// The state of a log that is taken as read up to its size.
pub open spec fn taken_as_read(mtime_ns: u64, size: u64) -> FileStateView {
    FileStateView { offset: size, mtime_ns, size, ..FileStateView::fresh() }
}

/// The paths, times and sizes of a list of logs.
pub open spec fn log_views(logs: Seq<(String, u64, u64)>) -> Seq<(Seq<char>, u64, u64)> {
    logs.map_values(|log: (String, u64, u64)| (log.0@, log.1, log.2))
}

/// What is remembered once each log of a list is taken as read, one after the other.
pub open spec fn bootstrapped(
    files: Map<Seq<char>, FileStateView>,
    logs: Seq<(Seq<char>, u64, u64)>,
) -> Map<Seq<char>, FileStateView>
    decreases logs.len(),
{
    if logs.len() == 0 {
        files
    } else {
        let (path, mtime_ns, size) = logs.last();
        bootstrapped(files, logs.drop_last()).insert(path, taken_as_read(mtime_ns, size))
    }
}

/// Takes the logs that are there before the first run as read: each comes with its path, its time
/// and its size.
pub fn bootstrap_existing_files(
    state: &mut PersistedState,
    paths_with_meta: &Vec<(String, u64, u64)>,
)
    ensures
        final(state)@ == (StateView {
            initialized: true,
            files: bootstrapped(old(state)@.files, log_views(paths_with_meta@)),
        }),
{
    let ghost logs = log_views(paths_with_meta@);
    let mut i: usize = 0;
    assert(logs.take(0) =~= Seq::empty());
    while i < paths_with_meta.len()
        invariant
            i <= paths_with_meta@.len(),
            logs == log_views(paths_with_meta@),
            state.files@ == bootstrapped(old(state)@.files, logs.take(i as int)),
        decreases paths_with_meta@.len() - i,
    {
        let (path, mtime_ns, size) = &paths_with_meta[i];
        let file_state = FileState {
            offset: *size,
            cwd: None,
            mtime_ns: *mtime_ns,
            session_id: None,
            seen_calls: Vec::new(),
            size: *size,
        };
        assert(file_state@ =~= taken_as_read(*mtime_ns, *size));
        state.files.insert(path.clone(), file_state);
        i += 1;
        assert(logs.take(i as int).drop_last() =~= logs.take(i - 1));
    }
    assert(logs.take(i as int) =~= logs);
    state.initialized = true;
}

/// Of the logs of one path that are taken as read, the last one decides what is remembered.
pub proof fn law_last_bootstrapped_log_decides(
    files: Map<Seq<char>, FileStateView>,
    logs: Seq<(Seq<char>, u64, u64)>,
    index: int,
)
    requires
        0 <= index < logs.len(),
        forall|j: int| index < j < logs.len() ==> (#[trigger] logs[j]).0 != logs[index].0,
    ensures
        bootstrapped(files, logs).contains_key(logs[index].0),
        bootstrapped(files, logs)[logs[index].0] == taken_as_read(logs[index].1, logs[index].2),
    decreases logs.len(),
{
    if index < logs.len() - 1 {
        let rest = logs.drop_last();
        assert(logs[logs.len() - 1].0 != logs[index].0);
        assert forall|j: int| index < j < rest.len() implies (#[trigger] rest[j]).0
            != rest[index].0 by {
            assert(rest[j] == logs[j]);
        }
        law_last_bootstrapped_log_decides(files, rest, index);
    }
}

/// Taking logs as read leaves what is remembered of every other path as it was.
pub proof fn law_bootstrap_leaves_other_paths(
    files: Map<Seq<char>, FileStateView>,
    logs: Seq<(Seq<char>, u64, u64)>,
    path: Seq<char>,
)
    requires
        forall|j: int| 0 <= j < logs.len() ==> (#[trigger] logs[j]).0 != path,
    ensures
        bootstrapped(files, logs).contains_key(path) == files.contains_key(path),
        files.contains_key(path) ==> bootstrapped(files, logs)[path] == files[path],
    decreases logs.len(),
{
    if logs.len() > 0 {
        let rest = logs.drop_last();
        assert(logs[logs.len() - 1].0 != path);
        assert forall|j: int| 0 <= j < rest.len() implies (#[trigger] rest[j]).0 != path by {
            assert(rest[j] == logs[j]);
        }
        law_bootstrap_leaves_other_paths(files, rest, path);
    }
}

/// A log that was taken as read reports nothing of what was in it then: visiting it when more was
/// appended gives the events of the appended lines, and none where nothing was.
pub proof fn law_bootstrapped_log_is_not_replayed(
    written: Seq<u8>,
    appended: Seq<u8>,
    mtime_ns: u64,
    later_ns: u64,
)
    requires
        written.len() + appended.len() <= u64::MAX,
    ensures
        ({
            let state = taken_as_read(mtime_ns, written.len() as u64);
            let content = written + appended;
            let size = content.len() as u64;
            let hydration = session_parser::hydrated(state, content);
            let visit = session_parser::processed(state, content, later_ns, size);
            &&& visit.events == if hydration.readable {
                session_parser::read_lines(
                    hydration.state,
                    text::split_lines(appended, session_parser::NEWLINE),
                ).given_events()
            } else {
                None
            }
            &&& appended.len() == 0 && hydration.readable ==> visit.events == Some(
                Seq::<EventView>::empty(),
            )
        }),
{
    let state = taken_as_read(mtime_ns, written.len() as u64);
    let content = written + appended;
    session_laws::law_hydration_touches_only_metadata(state, content);
    assert(session_parser::unread(content, written.len() as u64) =~= appended);
    if appended.len() == 0 {
        assert(text::split_lines(appended, session_parser::NEWLINE).len() == 0);
    }
}

/// Forgetting the logs that are gone leaves every log that is there as it was, and forgets
/// nothing more when it is done again.
pub proof fn law_pruning_keeps_live_logs(
    files: Map<Seq<char>, FileStateView>,
    live: Set<Seq<char>>,
)
    ensures
        forall|path: Seq<char>|
            #![trigger files.restrict(live).contains_key(path)]
            files.restrict(live).contains_key(path) <==> files.contains_key(path)
                && live.contains(path),
        forall|path: Seq<char>|
            files.restrict(live).contains_key(path) ==> #[trigger] files.restrict(live)[path]
                == files[path],
        files.restrict(live).dom().subset_of(live),
        files.restrict(live).restrict(live) == files.restrict(live),
{
    assert(files.restrict(live).restrict(live) =~= files.restrict(live));
}

} // verus!
