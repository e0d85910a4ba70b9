use codex_approval_watcher::models::{FileState, PersistedState};
use codex_approval_watcher::selection::{
    apply_watch_registration, reconcile_scan_paths, select_watched_files, watch_change,
};
use codex_approval_watcher::session_tree::{
    is_session_file, looks_like_session_id, recent_session_ids, session_file,
    session_id_from_rollout_path, session_index_lines, session_index_path, session_tree,
    stem_is_cuttable, SessionFile, SessionTree,
};
use codex_approval_watcher::string_set::StringSet;
use codex_approval_watcher::watch::{
    poll_timeout, vnode_watch_flags, watch_ident, PollError, QueueReturn, WatchTable, EV_ERROR,
    NOTE_ATTRIB, NOTE_DELETE, NOTE_EXTEND, NOTE_RENAME, NOTE_REVOKE, NOTE_WRITE,
};

fn set(items: &[&str]) -> StringSet {
    StringSet::from_list(&strings(items))
}

fn strings(items: &[&str]) -> Vec<String> {
    items.iter().map(|item| item.to_string()).collect()
}

fn file(path: &str, session_id: Option<&str>, mtime_ns: u64, size: u64) -> SessionFile {
    SessionFile {
        path: path.to_string(),
        session_id: session_id.map(|id| id.to_string()),
        mtime_ns,
        size,
    }
}

fn state_of(files: Vec<(&str, FileState)>) -> PersistedState {
    let mut state = PersistedState {
        initialized: true,
        ..PersistedState::default()
    };
    for (path, file_state) in files {
        state.files.insert(path.to_string(), file_state);
    }
    state
}

#[test]
fn file_watch_flags_include_write() {
    let flags = vnode_watch_flags();
    assert_ne!(flags & NOTE_WRITE, 0);
    assert_ne!(flags & NOTE_DELETE, 0);
    assert_ne!(flags & NOTE_EXTEND, 0);
    assert_ne!(flags & NOTE_ATTRIB, 0);
    assert_ne!(flags & NOTE_RENAME, 0);
    assert_ne!(flags & NOTE_REVOKE, 0);
    assert_eq!(flags, 0x6f);
}

#[test]
fn session_id_is_extracted_from_rollout_filename() {
    let path = "/tmp/rollout-2026-03-16T17-35-37-019cf5c9-5063-7450-86bd-6af537dea0bf.jsonl";

    assert_eq!(
        session_id_from_rollout_path(path).as_deref(),
        Some("019cf5c9-5063-7450-86bd-6af537dea0bf")
    );
}

#[test]
fn names_without_a_session_id_tell_none() {
    for path in [
        "",
        "/",
        "/tmp/a.jsonl",
        "/tmp/x019cf5c9-5063-7450-86bd-6af537dea0b.jsonl",
        "/tmp/019cf5c9-5063-7450-86bd-6af537dea0bg.jsonl",
        "/tmp/019cf5c9_5063-7450-86bd-6af537dea0bf.jsonl",
    ] {
        assert!(stem_is_cuttable(path));
        assert_eq!(session_id_from_rollout_path(path), None, "{path}");
    }
    assert_eq!(
        session_id_from_rollout_path("019CF5C9-5063-7450-86BD-6AF537DEA0BF").as_deref(),
        Some("019CF5C9-5063-7450-86BD-6AF537DEA0BF")
    );
    assert_eq!(
        session_id_from_rollout_path("/é019cf5c9-5063-7450-86bd-6af537dea0bf.x").as_deref(),
        Some("019cf5c9-5063-7450-86bd-6af537dea0bf")
    );
}

#[test]
fn stems_are_cut_between_characters_only() {
    let inside = format!("/tmp/é{}.jsonl", "a".repeat(35));
    assert!(!stem_is_cuttable(&inside));
    let between = format!("/tmp/é{}.jsonl", "a".repeat(36));
    assert!(stem_is_cuttable(&between));
    let short = format!("/tmp/é{}.jsonl", "a".repeat(33));
    assert!(stem_is_cuttable(&short));
}

#[test]
fn session_ids_have_their_form() {
    assert!(looks_like_session_id("019cf5c9-5063-7450-86bd-6af537dea0bf"));
    assert!(!looks_like_session_id("019cf5c9-5063-7450-86bd-6af537dea0b"));
    assert!(!looks_like_session_id("019cf5c9-5063-7450-86bd-6af537dea0bf0"));
    assert!(!looks_like_session_id("019cf5c95-063-7450-86bd-6af537dea0bf"));
    assert!(!looks_like_session_id("019cf5c9-5063-7450-86bd-6af537dea0bé"));
    assert!(!looks_like_session_id(""));
}

#[test]
fn session_files_are_told_by_their_extension() {
    assert!(is_session_file(true, "/a/b.jsonl"));
    assert!(!is_session_file(false, "/a/b.jsonl"));
    assert!(!is_session_file(true, "/a/b.json"));
    assert!(!is_session_file(true, "/a/.jsonl"));
    assert!(!is_session_file(true, "/a/b.JSONL"));
}

#[test]
fn scan_session_tree_includes_nested_directories() {
    let nested = "/root/2026/03/16/session.jsonl";
    assert!(is_session_file(true, nested));
    let tree = session_tree(&vec![session_file(nested.to_string(), Some(4), 0)]);
    assert!(tree.files.iter().any(|entry| entry.path == nested));
}

#[test]
fn trees_are_in_path_order() {
    let tree = session_tree(&vec![
        file("/a-b/x", None, 1, 0),
        file("/a/x", None, 2, 0),
        file("/a/b/c", None, 3, 0),
        file("/a//x", None, 4, 0),
    ]);
    let paths: Vec<&str> = tree.files.iter().map(|entry| entry.path.as_str()).collect();
    assert_eq!(paths, vec!["/a/b/c", "/a/x", "/a//x", "/a-b/x"]);
    assert_eq!(tree.files[1].mtime_ns, 2);
    assert_eq!(tree.files[2].mtime_ns, 4);
}

#[test]
fn found_files_carry_their_session_and_signature() {
    let found = session_file(
        "/x/019cf5c9-5063-7450-86bd-6af537dea0bf.jsonl".to_string(),
        Some(u128::from(u64::MAX) + 2),
        9,
    );
    assert_eq!(
        found.session_id.as_deref(),
        Some("019cf5c9-5063-7450-86bd-6af537dea0bf")
    );
    assert_eq!(found.mtime_ns, 1);
    assert_eq!(found.size, 9);
}

#[test]
fn the_index_is_beside_the_sessions() {
    assert_eq!(
        session_index_path("/home/u/.codex/sessions"),
        "/home/u/.codex/session_index.jsonl"
    );
    assert_eq!(session_index_path("sessions"), "session_index.jsonl");
    assert_eq!(session_index_path("/"), "session_index.jsonl");
    assert_eq!(session_index_path(""), "session_index.jsonl");
}

#[test]
fn recent_session_ids_prefer_latest_unique_entries() {
    let raw = format!(
        "{}{}{}",
        "{\"id\":\"sess-old\",\"thread_name\":\"old\",\"updated_at\":\"2026-03-16T00:00:00Z\"}\n",
        "{\"id\":\"sess-new\",\"thread_name\":\"new\",\"updated_at\":\"2026-03-16T00:01:00Z\"}\n",
        "{\"id\":\"sess-old\",\"thread_name\":\"old\",\"updated_at\":\"2026-03-16T00:02:00Z\"}\n"
    );
    let entries: Vec<Option<String>> = session_index_lines(&raw)
        .iter()
        .map(|line| {
            serde_json::from_str::<serde_json::Value>(line)
                .ok()
                .and_then(|value| value["id"].as_str().map(|id| id.to_string()))
        })
        .collect();

    let ids = recent_session_ids(&entries);
    assert_eq!(ids, vec!["sess-old".to_string(), "sess-new".to_string()]);
}

#[test]
fn recent_sessions_are_limited() {
    let entries: Vec<Option<String>> = (0..70)
        .flat_map(|number| vec![Some(format!("s{number}")), None, Some(format!("s{number}"))])
        .collect();
    let ids = recent_session_ids(&entries);
    assert_eq!(ids.len(), 64);
    assert_eq!(ids[0], "s69");
    assert_eq!(ids[63], "s6");
    assert!(recent_session_ids(&Vec::new()).is_empty());
}

#[test]
fn index_lines_end_as_text_lines_do() {
    assert_eq!(session_index_lines("a\r\nb\n\nc\r"), vec!["a", "b", "", "c\r"]);
    assert!(session_index_lines("").is_empty());
    for raw in ["x\n", "\n", "\r\n\r\n", "a\rb\n", "\r"] {
        let expected: Vec<&str> = raw.lines().collect();
        assert_eq!(session_index_lines(raw), expected);
    }
}

#[test]
fn watched_files_prioritize_recent_session_ids() {
    let tree = SessionTree {
        files: vec![
            file("/tmp/a.jsonl", Some("sess-a"), 10, 10),
            file("/tmp/b.jsonl", Some("sess-b"), 30, 10),
            file("/tmp/c.jsonl", Some("sess-c"), 20, 10),
        ],
    };

    let watched = select_watched_files(&tree, &vec![String::from("sess-a")]);
    assert!(watched.contains("/tmp/a.jsonl"));
    assert!(watched.contains("/tmp/b.jsonl"));
    assert!(watched.contains("/tmp/c.jsonl"));
}

#[test]
fn no_more_than_the_limit_is_watched() {
    let files = (0..40)
        .map(|number| {
            file(
                &format!("/tmp/{number:02}.jsonl"),
                Some(&format!("s{number}")),
                100 + number,
                1,
            )
        })
        .collect();
    let tree = SessionTree { files };
    let watched = select_watched_files(&tree, &strings(&["s3", "unknown", "s1", "s3"]));
    assert_eq!(watched.len(), 16);
    assert!(watched.contains("/tmp/03.jsonl"));
    assert!(watched.contains("/tmp/01.jsonl"));
    for number in 26..40 {
        assert!(watched.contains(&format!("/tmp/{number:02}.jsonl")));
    }

    let ids: Vec<String> = (0..20).map(|number| format!("s{number}")).collect();
    let recent = select_watched_files(&tree, &ids);
    assert_eq!(recent.len(), 16);
    assert!(recent.contains("/tmp/15.jsonl"));
    assert!(!recent.contains("/tmp/16.jsonl"));
    assert!(!recent.contains("/tmp/39.jsonl"));
}

#[test]
fn sessions_without_a_log_take_no_place() {
    let files = (0..40)
        .map(|number| {
            let session_id = format!("s{number}");
            file(&format!("/tmp/{number:02}.jsonl"), Some(&session_id), 100 + number, 1)
        })
        .collect();
    let mut ids: Vec<String> = (0..30).map(|number| format!("unknown{number}")).collect();
    ids.extend(["s0".to_string(), "s0".to_string(), "s1".to_string()]);
    let watched = select_watched_files(&SessionTree { files }, &ids);
    assert_eq!(watched.len(), 16);
    assert!(watched.contains("/tmp/00.jsonl"));
    assert!(watched.contains("/tmp/01.jsonl"));
    assert!(watched.contains("/tmp/26.jsonl"));
    assert!(!watched.contains("/tmp/25.jsonl"));
}

#[test]
fn of_logs_that_changed_together_the_lesser_path_is_watched() {
    let files = (0..17)
        .map(|number| file(&format!("/tmp/{number:02}.jsonl"), None, 5, 1))
        .rev()
        .collect();
    let watched = select_watched_files(&SessionTree { files }, &Vec::new());
    assert_eq!(watched.len(), 16);
    assert!(!watched.contains("/tmp/16.jsonl"));
    assert_eq!(watched.to_list()[0], "/tmp/00.jsonl");
}

#[test]
fn the_first_log_of_a_session_is_watched() {
    let mut files: Vec<SessionFile> = (0..20)
        .map(|number| file(&format!("/new/{number:02}"), None, 50, 1))
        .collect();
    files.push(file("/old/first", Some("s"), 1, 1));
    files.push(file("/old/second", Some("s"), 2, 1));
    let watched = select_watched_files(&SessionTree { files }, &strings(&["s"]));
    assert!(watched.contains("/old/first"));
    assert!(!watched.contains("/old/second"));
}

#[test]
fn reconcile_scan_paths_include_newly_added_watch_files() {
    let tree = SessionTree {
        files: vec![file("/tmp/new.jsonl", Some("sess-new"), 11, 42)],
    };
    let state = state_of(Vec::new());
    let added_watch_paths = set(&["/tmp/new.jsonl"]);

    let paths = reconcile_scan_paths(&tree, &state, &added_watch_paths);
    assert_eq!(paths, vec!["/tmp/new.jsonl".to_string()]);
}

#[test]
fn reconcile_scan_paths_include_files_with_changed_signature_even_if_not_watched() {
    let tree = SessionTree {
        files: vec![file("/tmp/cold.jsonl", Some("sess-cold"), 22, 200)],
    };
    let state = state_of(vec![(
        "/tmp/cold.jsonl",
        FileState {
            offset: 100,
            cwd: Some("/tmp/project".into()),
            mtime_ns: 10,
            session_id: Some("sess-cold".into()),
            seen_calls: Vec::new(),
            size: 100,
        },
    )]);

    let paths = reconcile_scan_paths(&tree, &state, &StringSet::new());
    assert_eq!(paths, vec!["/tmp/cold.jsonl".to_string()]);
}

#[test]
fn logs_that_have_not_changed_are_not_read_again() {
    let known = |mtime_ns: u64, size: u64| FileState {
        mtime_ns,
        size,
        ..FileState::default()
    };
    let tree = SessionTree {
        files: vec![
            file("/z", None, 1, 1),
            file("/same", None, 1, 1),
            file("/older", None, 1, 1),
            file("/longer", None, 1, 1),
            file("/watched", None, 1, 1),
            file("//z", None, 1, 1),
        ],
    };
    let state = state_of(vec![
        ("/same", known(1, 1)),
        ("/older", known(0, 1)),
        ("/longer", known(1, 0)),
        ("/watched", known(1, 1)),
    ]);
    let paths = reconcile_scan_paths(&tree, &state, &set(&["/watched", "/gone"]));
    assert_eq!(paths, strings(&["/longer", "/older", "/watched", "/z"]));
}

#[test]
fn watch_registration_keeps_failed_paths_out_of_watched_set() {
    let mut watched_files = set(&["/tmp/old.jsonl"]);
    let desired_files = set(&["/tmp/old.jsonl", "/tmp/new.jsonl"]);
    let registered_files = set(&["/tmp/old.jsonl"]);

    let added = apply_watch_registration(&mut watched_files, &desired_files, &registered_files);

    assert_eq!(added.len(), 0);
    assert!(watched_files.same_as(&registered_files));
    assert!(!watched_files.contains("/tmp/new.jsonl"));
}

#[test]
fn a_failed_registration_is_wanted_again() {
    let tree = SessionTree {
        files: vec![file("/a", None, 1, 1), file("/b", None, 1, 1)],
    };
    let mut watched = StringSet::new();
    let desired = watch_change(&tree, &Vec::new(), &watched).unwrap();
    assert_eq!(desired.to_list(), strings(&["/a", "/b"]));
    let added = apply_watch_registration(&mut watched, &desired, &set(&["/a"]));
    assert_eq!(added.to_list(), strings(&["/a"]));
    let desired = watch_change(&tree, &Vec::new(), &watched).unwrap();
    let added = apply_watch_registration(&mut watched, &desired, &set(&["/b", "/a"]));
    assert_eq!(added.to_list(), strings(&["/b"]));
    assert!(watch_change(&tree, &Vec::new(), &watched).is_none());
}

#[test]
fn sets_hold_each_text_once_in_order() {
    let mut words = set(&["b", "a", "é", "b", "", "z"]);
    assert_eq!(words.to_list(), strings(&["", "a", "b", "z", "é"]));
    words.insert("a".to_string());
    words.insert("aa".to_string());
    assert_eq!(words.len(), 6);
    assert_eq!(words.get(2), "aa");
    assert!(words.contains("é"));
    assert!(!words.contains("e"));
    assert!(!words.same_as(&set(&["b"])));
    assert!(set(&["b"]).is_within(&words));
    assert_eq!(words.difference(&set(&["aa", "q"])).len(), 5);
    assert!(words.clone().same_as(&words));
}

fn returned(count: i32, errno: Option<i32>, flags: u16, data: i64, ident: u64) -> QueueReturn {
    QueueReturn {
        count,
        errno,
        flags,
        data,
        ident,
    }
}

#[test]
fn wake_ups_name_the_file_that_changed() {
    let mut table = WatchTable::new();
    table.add_path(7, "/a".to_string());
    table.add_path(9, "/b".to_string());
    let path = |reply: QueueReturn| table.poll_path(&reply);
    assert_eq!(path(returned(1, None, 0, 0, 7)).unwrap().as_deref(), Some("/a"));
    assert_eq!(path(returned(1, None, 0, 5, 9)).unwrap().as_deref(), Some("/b"));
    assert_eq!(path(returned(1, None, 0, 0, 8)).unwrap(), None);
    assert_eq!(path(returned(0, None, 0, 0, 7)).unwrap(), None);
    assert_eq!(path(returned(-1, Some(4), 0, 0, 7)).unwrap(), None);
    assert_eq!(path(returned(1, None, EV_ERROR, 0, 7)).unwrap().as_deref(), Some("/a"));
}

#[test]
fn wake_ups_may_bring_errors() {
    let table = WatchTable::new();
    let error = |reply: QueueReturn| table.poll_path(&reply).unwrap_err();
    assert_eq!(error(returned(-1, Some(9), 0, 0, 0)), PollError::Failed);
    assert_eq!(error(returned(-1, None, 0, 0, 0)), PollError::Failed);
    assert_eq!(
        error(returned(1, None, EV_ERROR | 1, 13, 0)),
        PollError::ErrorEvent { errno: 13 }
    );
    assert_eq!(
        error(returned(1, None, EV_ERROR, i64::from(i32::MAX) + 1, 0)),
        PollError::ErrorCodeOutOfRange
    );
    assert_eq!(
        error(returned(1, None, 0, 0, 1 << 31)),
        PollError::DescriptorOutOfRange
    );
    assert_eq!(PollError::Failed.message(), "failed to poll kqueue watcher");
    assert_eq!(
        PollError::ErrorEvent { errno: 1 }.message(),
        "kqueue delivered an error event"
    );
    assert_eq!(
        PollError::ErrorCodeOutOfRange.message(),
        "kqueue error code out of range"
    );
    assert_eq!(
        PollError::DescriptorOutOfRange.message(),
        "watched file descriptor out of range"
    );
}

#[test]
fn descriptors_and_timeouts_are_converted() {
    assert_eq!(watch_ident(5), Some(5));
    assert_eq!(watch_ident(-1), None);
    assert_eq!(poll_timeout(1_234), (1, 234_000_000));
    assert_eq!(poll_timeout(0), (0, 0));
    assert_eq!(poll_timeout(u64::MAX), (18_446_744_073_709_551, 615_000_000));
}
