use codex_approval_watcher::config::{expand_config_paths, validate_config, Config, HookConfig, NotificationsConfig};
use codex_approval_watcher::file_map::FileMap;
use codex_approval_watcher::models::{FileState, PersistedState};
use codex_approval_watcher::notifier::escape_applescript;
use codex_approval_watcher::paths::{components, parent};
use codex_approval_watcher::selection::reconcile_scan_paths;
use codex_approval_watcher::session_parser::SessionError;
use codex_approval_watcher::session_tree::{SessionFile, SessionTree};
use codex_approval_watcher::state::{
    bootstrap_existing_files, load_state, prune_deleted_files, save_state,
};
use codex_approval_watcher::string_set::StringSet;
use codex_approval_watcher::sync::{
    hydrate_missing_metadata, live_paths, needs_reading, paths_to_hydrate, sync_session_files,
    LogSnapshot,
};

const META: &str = "{\"timestamp\":\"2026-03-16T00:00:00Z\",\"type\":\"session_meta\",\"payload\":{\"id\":\"sess-1\",\"cwd\":\"/tmp/project\"}}\n";

fn call_line(call_id: &str) -> String {
    format!(
        "{{\"type\":\"response_item\",\"payload\":{{\"type\":\"function_call\",\"arguments\":\"{{\\\"cmd\\\":\\\"{call_id}\\\",\\\"sandbox_permissions\\\":\\\"require_escalated\\\"}}\",\"call_id\":\"{call_id}\"}}}}\n"
    )
}

fn known(offset: u64, mtime_ns: u64, size: u64) -> FileState {
    FileState {
        offset,
        cwd: Some("/tmp/project".to_string()),
        mtime_ns,
        session_id: Some("sess-1".to_string()),
        seen_calls: vec!["old".to_string()],
        size,
    }
}

fn state_of(files: Vec<(&str, FileState)>) -> PersistedState {
    let mut state = PersistedState {
        initialized: true,
        ..PersistedState::default()
    };
    for (path, file_state) in files {
        state.files.insert(path.to_string(), file_state);
    }
    state
}

fn file(path: &str) -> SessionFile {
    SessionFile {
        path: path.to_string(),
        session_id: None,
        mtime_ns: 0,
        size: 0,
    }
}

fn snapshot(path: &str, mtime_ns: u64, content: &str) -> LogSnapshot {
    LogSnapshot {
        path: path.to_string(),
        mtime_ns,
        size: content.len() as u64,
        content: content.as_bytes().to_vec(),
    }
}

fn paths(files: &FileMap) -> Vec<String> {
    (0..files.len()).map(|place| files.path(place).clone()).collect()
}

fn set(items: &[&str]) -> StringSet {
    let mut set = StringSet::new();
    for item in items {
        set.insert(item.to_string());
    }
    set
}

#[test]
fn a_state_that_could_not_be_read_is_blank() {
    let blank = load_state(None);
    assert!(!blank.initialized);
    assert_eq!(blank.files.len(), 0);
    let stored = load_state(Some(state_of(vec![("/a", known(1, 2, 3))])));
    assert!(stored.initialized);
    assert_eq!(stored.files.get("/a"), Some(&known(1, 2, 3)));
}

#[test]
fn the_state_file_is_replaced_as_a_whole() {
    let steps = save_state("/home/u/.config/watcher/state.json");
    assert_eq!(steps.directory.as_deref(), Some("/home/u/.config/watcher"));
    assert_eq!(steps.temp_path, "/home/u/.config/watcher/state.tmp");
    let local = save_state("state");
    assert_eq!(local.directory.as_deref(), Some(""));
    assert_eq!(local.temp_path, "state.tmp");
    assert_eq!(save_state("/x/..state").temp_path, "/x/..");
    let root = save_state("/");
    assert_eq!(root.directory, None);
    assert_eq!(root.temp_path, "/");
}

#[test]
fn maps_keep_one_state_per_path_in_order() {
    let mut files = FileMap::new();
    files.insert("/b".to_string(), known(1, 1, 1));
    files.insert("/a".to_string(), known(2, 2, 2));
    files.insert("/b".to_string(), known(3, 3, 3));
    files.insert("/c".to_string(), FileState::default());
    assert_eq!(paths(&files), vec!["/a", "/b", "/c"]);
    assert_eq!(files.state(1).offset, 3);
    assert_eq!(files.get("/a"), Some(&known(2, 2, 2)));
    assert_eq!(files.get("/d"), None);
    assert_eq!(files.get_or_fresh("/d"), FileState::default());
    assert!(files.get_or_fresh("/c").same_as(&FileState::default()));
    assert!(!known(1, 1, 1).same_as(&known(1, 1, 2)));
    let copy = files.clone();
    assert_eq!(paths(&copy), paths(&files));
    assert_eq!(copy.get("/b"), files.get("/b"));
}

#[test]
fn logs_that_are_gone_are_forgotten() {
    let mut state = state_of(vec![
        ("/a", known(1, 1, 1)),
        ("/b", known(2, 2, 2)),
        ("/c", known(3, 3, 3)),
    ]);
    let live = set(&["/a", "/c", "/new"]);
    assert!(prune_deleted_files(&mut state, &live));
    assert_eq!(paths(&state.files), vec!["/a", "/c"]);
    assert_eq!(state.files.get("/c"), Some(&known(3, 3, 3)));
    assert!(state.initialized);
    assert!(!prune_deleted_files(&mut state, &live));
    assert_eq!(paths(&state.files), vec!["/a", "/c"]);
}

#[test]
fn logs_that_are_there_first_are_taken_as_read() {
    let mut state = PersistedState::default();
    state.files.insert("/kept".to_string(), known(1, 1, 1));
    bootstrap_existing_files(
        &mut state,
        &vec![
            ("/a".to_string(), 10, 100),
            ("/b".to_string(), 20, 200),
            ("/a".to_string(), 30, 300),
        ],
    );
    assert!(state.initialized);
    assert_eq!(paths(&state.files), vec!["/a", "/b", "/kept"]);
    let taken = state.files.get("/a").unwrap();
    assert_eq!((taken.offset, taken.mtime_ns, taken.size), (300, 30, 300));
    assert_eq!(taken.cwd, None);
    assert!(taken.seen_calls.is_empty());
    assert_eq!(state.files.get("/kept"), Some(&known(1, 1, 1)));
}

#[test]
fn a_log_taken_as_read_is_not_replayed() {
    let written = format!("{META}{}", call_line("one"));
    let mut state = PersistedState::default();
    bootstrap_existing_files(
        &mut state,
        &vec![("/a".to_string(), 1, written.len() as u64)],
    );
    let (dirty, events) =
        sync_session_files(&vec![snapshot("/a", 1, &written)], &mut state).unwrap();
    assert!(dirty);
    assert!(events.is_empty());
    assert_eq!(state.files.get("/a").unwrap().session_id.as_deref(), Some("sess-1"));

    let grown = format!("{written}{}", call_line("two"));
    let (_, events) = sync_session_files(&vec![snapshot("/a", 2, &grown)], &mut state).unwrap();
    assert_eq!(events.len(), 1);
    assert_eq!(events[0].command, "two");
}

#[test]
fn hydrate_missing_metadata_recovers_bootstrapped_sessions() {
    let session_path = "/tmp/session.jsonl";
    let length = META.len() as u64;
    let mut state = state_of(vec![(
        session_path,
        FileState {
            offset: length,
            cwd: None,
            mtime_ns: 0,
            session_id: None,
            seen_calls: Vec::new(),
            size: length,
        },
    )]);
    let files = vec![SessionFile {
        path: session_path.to_string(),
        session_id: Some("sess-1".into()),
        mtime_ns: 0,
        size: length,
    }];

    assert_eq!(paths_to_hydrate(&files, &state), vec![session_path]);
    let dirty =
        hydrate_missing_metadata(&files, &vec![META.as_bytes().to_vec()], &mut state).unwrap();
    assert!(dirty);

    let recovered = state.files.get(session_path).unwrap();
    assert_eq!(recovered.cwd.as_deref(), Some("/tmp/project"));
    assert_eq!(recovered.session_id.as_deref(), Some("sess-1"));
    assert_eq!(recovered.offset, length);
}

#[test]
fn metadata_is_searched_where_it_is_missing_only() {
    let mut state = state_of(vec![("/known", known(1, 1, 1)), ("/gone", known(2, 2, 2))]);
    let files = vec![file("/z"), file("/known"), file("/b"), file("/z")];
    assert_eq!(live_paths(&files).to_list(), vec!["/b", "/known", "/z"]);
    assert_eq!(paths_to_hydrate(&files, &state), vec!["/b", "/z"]);
    let contents = vec![b"nothing\n".to_vec(), META.as_bytes().to_vec()];
    assert!(hydrate_missing_metadata(&files, &contents, &mut state).unwrap());
    assert_eq!(paths(&state.files), vec!["/b", "/known", "/z"]);
    assert_eq!(state.files.get("/b"), Some(&FileState::default()));
    assert_eq!(state.files.get("/known"), Some(&known(1, 1, 1)));
    assert_eq!(state.files.get("/z").unwrap().cwd.as_deref(), Some("/tmp/project"));

    assert_eq!(paths_to_hydrate(&files, &state), vec!["/b"]);
    let again = hydrate_missing_metadata(&files, &vec![b"nothing\n".to_vec()], &mut state);
    assert!(!again.unwrap());
}

#[test]
fn remembering_a_log_without_metadata_is_no_change() {
    let mut state = state_of(Vec::new());
    let changed = hydrate_missing_metadata(&vec![file("/a")], &vec![Vec::new()], &mut state);
    assert!(!changed.unwrap());
    assert_eq!(paths(&state.files), vec!["/a"]);
}

#[test]
fn the_search_for_metadata_stops_at_a_log_that_is_no_text() {
    let mut state = state_of(vec![("/gone", known(1, 1, 1))]);
    let files = vec![file("/a"), file("/b"), file("/c")];
    let contents = vec![META.as_bytes().to_vec(), b"\xff\n".to_vec(), Vec::new()];
    let result = hydrate_missing_metadata(&files, &contents, &mut state);
    assert!(matches!(result, Err(SessionError::InvalidUtf8 { path }) if path == "/b"));
    assert_eq!(paths(&state.files), vec!["/a", "/b", "/gone"]);
    assert!(state.files.get("/a").unwrap().cwd.is_some());
}

#[test]
fn logs_are_processed_one_after_the_other() {
    let mut state = state_of(vec![("/a", known(0, 0, 0)), ("/other", known(9, 9, 9))]);
    let a = call_line("one");
    let b = format!("{META}{}", call_line("two"));
    let logs = vec![snapshot("/b", 1, &b), snapshot("/a", 1, &a)];
    let (dirty, events) = sync_session_files(&logs, &mut state).unwrap();
    assert!(dirty);
    let commands: Vec<&str> = events.iter().map(|event| event.command.as_str()).collect();
    assert_eq!(commands, vec!["two", "one"]);
    assert_eq!(state.files.get("/other"), Some(&known(9, 9, 9)));

    let (dirty, events) = sync_session_files(&logs, &mut state).unwrap();
    assert!(!dirty);
    assert!(events.is_empty());
    assert!(!needs_reading(&state, "/a", 1, a.len() as u64));
    assert!(needs_reading(&state, "/a", 2, a.len() as u64));
    assert!(needs_reading(&state, "/a", 1, 0));
    assert!(needs_reading(&state, "/never", 0, 0));

    let mut scanned = file("/a");
    scanned.mtime_ns = 1;
    scanned.size = a.len() as u64;
    let tree = SessionTree { files: vec![scanned] };
    assert!(reconcile_scan_paths(&tree, &state, &StringSet::new()).is_empty());
}

#[test]
fn two_goes_come_to_the_same_as_one() {
    let logs = || {
        (
            snapshot("/a", 1, &call_line("one")),
            snapshot("/b", 1, &call_line("two")),
        )
    };
    let start = || state_of(vec![("/a", known(0, 0, 0)), ("/b", known(0, 0, 0))]);
    let mut once = start();
    let (first, second) = logs();
    let (_, all) = sync_session_files(&vec![first, second], &mut once).unwrap();
    let mut twice = start();
    let (first, second) = logs();
    let (_, mut some) = sync_session_files(&vec![first], &mut twice).unwrap();
    let (_, more) = sync_session_files(&vec![second], &mut twice).unwrap();
    some.extend(more);
    assert_eq!(all.len(), 2);
    for (left, right) in all.iter().zip(some.iter()) {
        assert_eq!(left.command, right.command);
    }
    for path in ["/a", "/b"] {
        assert_eq!(once.files.get(path), twice.files.get(path));
    }
}

#[test]
fn processing_stops_at_a_log_that_is_no_text() {
    let mut state = state_of(vec![("/a", known(0, 0, 0)), ("/b", known(0, 0, 0))]);
    let mut broken = snapshot("/a", 1, "x");
    broken.content = b"\xff".to_vec();
    let logs = vec![broken, snapshot("/b", 1, &call_line("two"))];
    let result = sync_session_files(&logs, &mut state);
    assert!(matches!(result, Err(SessionError::InvalidUtf8 { path }) if path == "/a"));
    assert_eq!(state.files.get("/b"), Some(&known(0, 0, 0)));
}

#[test]
fn expansion_keeps_validity() {
    let config = |name: &str| Config {
        sessions_root: "~/s".to_string(),
        state_file: "~/t".to_string(),
        event_timeout_ms: 1,
        notifications: NotificationsConfig::default(),
        hooks: vec![HookConfig {
            name: name.to_string(),
            command: vec!["~/x".to_string()],
            timeout_ms: 1,
        }],
    };
    let home = Some("/h".to_string());
    for name in ["", "a"] {
        assert_eq!(
            validate_config(&config(name)).is_ok(),
            validate_config(&expand_config_paths(config(name), &home)).is_ok()
        );
    }
}

#[test]
fn a_parent_has_all_components_but_the_last() {
    for path in ["/a/b/c", "a//b/.", "./a", "../x/y/"] {
        let found = parent(path).unwrap();
        assert_eq!(components(&found).len() + 1, components(path).len(), "{path}");
    }
}

fn read_literal(source: &str) -> (String, String) {
    let mut content = String::new();
    let mut chars = source.chars();
    while let Some(ch) = chars.next() {
        match ch {
            '"' => break,
            '\\' => content.extend(chars.next()),
            _ => content.push(ch),
        }
    }
    (content, chars.collect())
}

#[test]
fn escaped_text_is_read_back() {
    for value in ["", "a", "\"", "\\", "end\\", "\" & do shell script \"x", "é\\\"\n"] {
        let source = format!("{}\" with title", escape_applescript(value));
        let (content, rest) = read_literal(&source);
        assert_eq!(content, value);
        assert_eq!(rest, " with title");
    }
}
