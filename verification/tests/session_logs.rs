use codex_approval_watcher::json;
use codex_approval_watcher::json::{Arguments, Entry, Payload};
use codex_approval_watcher::models::FileState;
use codex_approval_watcher::session_parser::{
    apply_entry, current_file_signature, handle_entry, hydrate_session_metadata, process_file,
    SessionError, MAX_SEEN_CALLS,
};

const LOG: &str = "/tmp/session.jsonl";
const META: &str = "{\"timestamp\":\"2026-03-16T00:00:00Z\",\"type\":\"session_meta\",\"payload\":{\"id\":\"sess-1\",\"cwd\":\"/tmp/project-a\"}}\n";
const CALL: &str = "{\"timestamp\":\"2026-03-16T00:00:01Z\",\"type\":\"response_item\",\"payload\":{\"type\":\"function_call\",\"name\":\"exec_command\",\"arguments\":\"{\\\"cmd\\\":\\\"printf hi > /tmp/a\\\",\\\"justification\\\":\\\"Need approval\\\",\\\"sandbox_permissions\\\":\\\"require_escalated\\\"}\",\"call_id\":\"call-1\"}}\n";

fn call_line(call_id: &str, command: &str) -> String {
    format!(
        "{{\"timestamp\":\"t\",\"type\":\"response_item\",\"payload\":{{\"type\":\"function_call\",\"name\":\"exec_command\",\"arguments\":\"{{\\\"cmd\\\":\\\"{command}\\\",\\\"sandbox_permissions\\\":\\\"require_escalated\\\"}}\",\"call_id\":\"{call_id}\"}}}}\n"
    )
}

fn known_state() -> FileState {
    FileState {
        cwd: Some("/tmp/project-a".to_string()),
        session_id: Some("sess-1".to_string()),
        ..FileState::default()
    }
}

fn visit(content: &str, mtime_ns: u64, state: &mut FileState) -> Vec<String> {
    process_file(LOG, content.as_bytes(), mtime_ns, content.len() as u64, state)
        .unwrap()
        .into_iter()
        .map(|event| event.command)
        .collect()
}

#[test]
fn hydrates_metadata_from_session_meta() {
    let content = "{\"type\":\"session_meta\",\"payload\":{\"id\":\"sess-1\",\"cwd\":\"/tmp/project-a\"}}\n";
    let mut state = FileState::default();
    hydrate_session_metadata(LOG, content.as_bytes(), &mut state).unwrap();

    assert_eq!(state.session_id.as_deref(), Some("sess-1"));
    assert_eq!(state.cwd.as_deref(), Some("/tmp/project-a"));
}

#[test]
fn process_file_emits_approval_event() {
    let content = format!("{META}{CALL}");
    let mut state = FileState::default();
    let events = process_file(LOG, content.as_bytes(), 1, content.len() as u64, &mut state).unwrap();

    assert_eq!(events.len(), 1);
    assert_eq!(events[0].event, "approval.requested");
    assert_eq!(events[0].session_id, "sess-1");
    assert_eq!(events[0].cwd, "/tmp/project-a");
    assert_eq!(events[0].message, "Need approval");
    assert_eq!(events[0].command, "printf hi > /tmp/a");
    assert_eq!(events[0].timestamp, "2026-03-16T00:00:01Z");
    assert_eq!(state.offset, content.len() as u64);
    assert_eq!(state.mtime_ns, 1);
    assert_eq!(state.size, content.len() as u64);
    assert_eq!(state.seen_calls, vec!["call-1".to_string()]);
}

#[test]
fn process_file_dedupes_seen_call_ids() {
    let content = format!("{META}{CALL}");
    let mut state = FileState::default();
    let first = process_file(LOG, content.as_bytes(), 1, content.len() as u64, &mut state).unwrap();
    let second = process_file(LOG, content.as_bytes(), 1, content.len() as u64, &mut state).unwrap();

    assert_eq!(first.len(), 1);
    assert!(second.is_empty());
}

#[test]
fn process_file_handles_truncation_and_new_event() {
    let mut state = FileState::default();
    let first = process_file(LOG, META.as_bytes(), 1, META.len() as u64, &mut state).unwrap();
    assert!(first.is_empty());

    let content = concat_log(
        "{\"timestamp\":\"2026-03-16T00:00:02Z\",\"type\":\"session_meta\",\"payload\":{\"id\":\"sess-1\",\"cwd\":\"/tmp/project-a\"}}\n",
        "{\"timestamp\":\"2026-03-16T00:00:03Z\",\"type\":\"response_item\",\"payload\":{\"type\":\"function_call\",\"name\":\"exec_command\",\"arguments\":\"{\\\"cmd\\\":\\\"printf hi > /tmp/b\\\",\\\"justification\\\":\\\"Need approval again\\\",\\\"sandbox_permissions\\\":\\\"require_escalated\\\"}\",\"call_id\":\"call-2\"}}\n",
    );
    let second = process_file(LOG, content.as_bytes(), 2, content.len() as u64, &mut state).unwrap();
    assert_eq!(second.len(), 1);
    assert_eq!(second[0].command, "printf hi > /tmp/b");
}

fn concat_log(first: &str, second: &str) -> String {
    format!("{first}{second}")
}

#[test]
fn a_shorter_log_is_read_from_its_beginning() {
    let mut state = known_state();
    let long = format!("{}{}", call_line("a", "one"), call_line("b", "two"));
    assert_eq!(visit(&long, 1, &mut state), vec!["one", "two"]);
    let short = call_line("c", "three");
    assert_eq!(visit(&short, 2, &mut state), vec!["three"]);
    assert_eq!(state.offset, short.len() as u64);
}

#[test]
fn appended_lines_are_read_once() {
    let mut state = known_state();
    let mut content = call_line("a", "one");
    assert_eq!(visit(&content, 1, &mut state), vec!["one"]);
    content.push_str(&call_line("b", "two"));
    assert_eq!(visit(&content, 2, &mut state), vec!["two"]);
    assert!(visit(&content, 3, &mut state).is_empty());

    let mut fresh = known_state();
    assert_eq!(visit(&content, 2, &mut fresh), vec!["one", "two"]);
}

#[test]
fn a_log_with_known_metadata_and_the_same_signature_is_not_read() {
    let mut state = known_state();
    state.mtime_ns = 5;
    let content = call_line("a", "one");
    state.size = content.len() as u64;
    assert!(visit(&content, 5, &mut state).is_empty());
    assert_eq!(state.offset, 0);
    assert_eq!(visit(&content, 6, &mut state), vec!["one"]);
}

#[test]
fn an_offset_beyond_the_content_is_kept() {
    let mut state = known_state();
    state.offset = 100;
    let events = process_file(LOG, b"abc", 9, 200, &mut state).unwrap();
    assert!(events.is_empty());
    assert_eq!(state.offset, 100);
    assert_eq!(state.size, 200);
    assert_eq!(state.mtime_ns, 9);
}

#[test]
fn a_second_visit_is_silent_where_metadata_stays_missing() {
    let content = "{\"type\":\"session_meta\",\"payload\":{\"id\":\"x\"}}\n";
    let mut bytes = content.as_bytes().to_vec();
    bytes.extend_from_slice(b"\xff\n");
    let size = bytes.len() as u64;
    let mut state = FileState {
        offset: size,
        cwd: Some(String::new()),
        ..FileState::default()
    };
    assert!(process_file(LOG, &bytes, 1, size, &mut state).unwrap().is_empty());
    assert!(state.metadata_missing());
    assert!(process_file(LOG, &bytes, 1, size, &mut state).unwrap().is_empty());
}

#[test]
fn bytes_that_are_no_text_end_the_reading() {
    let mut content = call_line("a", "one").into_bytes();
    content.extend_from_slice(b"\xff\xfe\n");
    let mut state = known_state();
    let result = process_file(LOG, &content, 1, content.len() as u64, &mut state);
    let error = result.unwrap_err();
    assert!(matches!(&error, SessionError::InvalidUtf8 { path } if path == LOG));
    assert_eq!(error.message(), "failed to read /tmp/session.jsonl");
    assert_eq!(state.seen_calls, vec!["a".to_string()]);
    assert_eq!(state.offset, 0);

    let mut fresh = FileState::default();
    let result = hydrate_session_metadata(LOG, b"\xff\n", &mut fresh);
    let error = result.unwrap_err();
    assert!(matches!(&error, SessionError::InvalidUtf8 { path } if path == LOG));
    assert_eq!(error.message(), "failed to read /tmp/session.jsonl");
}

#[test]
fn hydration_stops_once_metadata_is_there() {
    let mut content = META.as_bytes().to_vec();
    content.extend_from_slice(b"\xff\n");
    let mut state = FileState::default();
    assert!(hydrate_session_metadata(LOG, &content, &mut state).is_ok());
    assert_eq!(state.session_id.as_deref(), Some("sess-1"));
    assert_eq!(state.offset, 0);

    let mut known = known_state();
    known.cwd = Some("/elsewhere".to_string());
    assert!(hydrate_session_metadata(LOG, &content, &mut known).is_ok());
    assert_eq!(known.cwd.as_deref(), Some("/elsewhere"));
}

#[test]
fn hydration_reads_lines_that_end_in_carriage_returns() {
    let content = "not json\r\n{\"type\":\"session_meta\",\"payload\":{\"cwd\":\"/a\"}}\r\n{\"type\":\"session_meta\",\"payload\":{\"id\":\"x\",\"cwd\":\"\"}}\r\n";
    let mut state = FileState::default();
    hydrate_session_metadata(LOG, content.as_bytes(), &mut state).unwrap();
    assert_eq!(state.cwd.as_deref(), Some("/a"));
    assert_eq!(state.session_id.as_deref(), Some("x"));
}

#[test]
fn only_escalated_function_calls_are_reported() {
    let quiet = [
        "",
        "[]",
        "{}",
        "\"text\"",
        "{\"type\":\"response_item\"}",
        "{\"type\":\"response_item\",\"payload\":[]}",
        "{\"type\":\"response_item\",\"payload\":{\"type\":\"message\"}}",
        "{\"type\":\"response_item\",\"payload\":{\"type\":\"function_call\"}}",
        "{\"type\":\"response_item\",\"payload\":{\"type\":\"function_call\",\"arguments\":7}}",
        "{\"type\":\"response_item\",\"payload\":{\"type\":\"function_call\",\"arguments\":\"{\"}}",
        "{\"type\":\"response_item\",\"payload\":{\"type\":\"function_call\",\"arguments\":\"{}\"}}",
        "{\"type\":\"response_item\",\"payload\":{\"type\":\"function_call\",\"arguments\":\"{\\\"sandbox_permissions\\\":\\\"use_default\\\"}\"}}",
        "{\"type\":\"event_msg\",\"payload\":{\"type\":\"function_call\",\"arguments\":\"{\\\"sandbox_permissions\\\":\\\"require_escalated\\\"}\"}}",
    ];
    for line in quiet {
        let mut state = known_state();
        assert!(handle_entry(line, &mut state).is_none(), "{line}");
        assert_eq!(state, known_state(), "{line}");
    }
}

#[test]
fn a_call_without_an_id_is_told_by_what_it_says() {
    let line = "{\"timestamp\":\"t1\",\"type\":\"response_item\",\"payload\":{\"type\":\"function_call\",\"name\":\"shell\",\"call_id\":\"\",\"arguments\":\"{\\\"cmd\\\":\\\"ls\\\",\\\"sandbox_permissions\\\":\\\"require_escalated\\\"}\"}}";
    let mut state = known_state();
    let event = handle_entry(line, &mut state).unwrap();
    assert_eq!(state.seen_calls, vec!["t1:shell:ls".to_string()]);
    assert_eq!(event.message, "Approval required");
    assert_eq!(event.command, "ls");
    assert!(handle_entry(line, &mut state).is_none());
}

#[test]
fn blank_texts_are_replaced() {
    let line = "{\"type\":\"response_item\",\"payload\":{\"type\":\"function_call\",\"call_id\":\"x\",\"arguments\":\"{\\\"cmd\\\":\\\" \\\",\\\"justification\\\":\\\"\\u2003\\\",\\\"sandbox_permissions\\\":\\\"require_escalated\\\"}\"}}";
    let mut state = known_state();
    let event = handle_entry(line, &mut state).unwrap();
    assert_eq!(event.message, "Approval required");
    assert_eq!(event.command, "Command requires approval");
    assert_eq!(event.timestamp, "");
}

#[test]
fn calls_of_a_log_without_metadata_are_not_reported() {
    for (cwd, session_id) in [(None, Some("s")), (Some("/d"), None), (Some(""), Some("s"))] {
        let mut state = FileState {
            cwd: cwd.map(|text: &str| text.to_string()),
            session_id: session_id.map(|text: &str| text.to_string()),
            ..FileState::default()
        };
        assert!(handle_entry(&call_line("a", "one"), &mut state).is_none());
        assert!(state.seen_calls.is_empty());
    }
}

#[test]
fn the_oldest_handled_calls_are_forgotten() {
    let mut state = known_state();
    for number in 0..MAX_SEEN_CALLS + 3 {
        let line = call_line(&format!("call-{number}"), "one");
        assert!(handle_entry(&line, &mut state).is_some());
    }
    assert_eq!(state.seen_calls.len(), 100);
    assert_eq!(state.seen_calls[0], "call-3");
    assert_eq!(state.seen_calls[99], "call-102");
    assert!(handle_entry(&call_line("call-3", "one"), &mut state).is_none());
    assert!(handle_entry(&call_line("call-2", "one"), &mut state).is_some());
}

#[test]
fn later_metadata_replaces_earlier_but_not_with_nothing() {
    let mut state = known_state();
    let line = "{\"type\":\"session_meta\",\"payload\":{\"id\":\"\",\"cwd\":\"/new\"}}";
    assert!(handle_entry(line, &mut state).is_none());
    assert_eq!(state.cwd.as_deref(), Some("/new"));
    assert_eq!(state.session_id.as_deref(), Some("sess-1"));
}

#[test]
fn parsed_lines_hold_what_the_json_holds() {
    let entry = json::parse_json_line(CALL.trim_end()).unwrap();
    assert_eq!(entry.kind.as_deref(), Some("response_item"));
    assert_eq!(entry.timestamp.as_deref(), Some("2026-03-16T00:00:01Z"));
    let payload = entry.payload.unwrap();
    assert_eq!(payload.kind.as_deref(), Some("function_call"));
    assert_eq!(payload.name.as_deref(), Some("exec_command"));
    assert_eq!(payload.call_id.as_deref(), Some("call-1"));
    assert_eq!(payload.id, None);
    let arguments = json::parse_arguments(payload.arguments.as_deref().unwrap()).unwrap();
    assert_eq!(arguments.cmd.as_deref(), Some("printf hi > /tmp/a"));
    assert_eq!(arguments.justification.as_deref(), Some("Need approval"));
    assert_eq!(
        arguments.sandbox_permissions.as_deref(),
        Some("require_escalated")
    );

    assert!(json::parse_json_line("[1]").is_none());
    assert!(json::parse_json_line("{").is_none());
    assert!(json::parse_arguments("nonsense").is_none());
    assert!(json::parse_arguments("[]").unwrap().cmd.is_none());
}

#[test]
fn an_entry_is_applied_with_its_arguments() {
    let entry = Entry {
        kind: Some("response_item".to_string()),
        timestamp: None,
        payload: Some(Payload {
            kind: Some("function_call".to_string()),
            id: None,
            cwd: None,
            name: None,
            call_id: Some("k".to_string()),
            arguments: Some("ignored".to_string()),
        }),
    };
    let arguments = Some(Arguments {
        sandbox_permissions: Some("require_escalated".to_string()),
        justification: Some("why".to_string()),
        cmd: Some("what".to_string()),
    });
    let mut state = known_state();
    let event = apply_entry(&entry, &arguments, &mut state).unwrap();
    assert_eq!(event.message, "why");
    assert_eq!(event.command, "what");
    assert!(apply_entry(&entry, &arguments, &mut state).is_none());
    assert!(apply_entry(&entry, &None, &mut known_state()).is_none());
}

#[test]
fn signatures_are_cut_to_sixty_four_bits() {
    assert_eq!(current_file_signature(Some(5), 7), (5, 7));
    assert_eq!(current_file_signature(None, 7), (0, 7));
    assert_eq!(
        current_file_signature(Some(u128::from(u64::MAX) + 3), 0),
        (2, 0)
    );
}
