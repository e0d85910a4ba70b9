use codex_approval_watcher::models::PersistedState;
use codex_approval_watcher::session_parser::SessionError;
use codex_approval_watcher::session_tree::{SessionFile, SessionTree};
use codex_approval_watcher::string_set::StringSet;
use codex_approval_watcher::sync::LogSnapshot;
use codex_approval_watcher::watcher::{
    Action, Polled, Report, Watcher, TOPOLOGY_RESCAN_INTERVAL_NS,
};

const META: &str = "{\"type\":\"session_meta\",\"payload\":{\"id\":\"sess-1\",\"cwd\":\"/tmp/project\"}}\n";

fn call_line(call_id: &str) -> String {
    format!(
        "{{\"type\":\"response_item\",\"payload\":{{\"type\":\"function_call\",\"arguments\":\"{{\\\"cmd\\\":\\\"{call_id}\\\",\\\"sandbox_permissions\\\":\\\"require_escalated\\\"}}\",\"call_id\":\"{call_id}\"}}}}\n"
    )
}

/// Logs that stand in for a directory, and what was done with them.
struct World {
    logs: Vec<(String, u64, String)>,
    broken: Vec<String>,
    done: Vec<String>,
    delivered: Vec<String>,
    saved: Option<PersistedState>,
    now_ns: u64,
}

impl World {
    fn new(logs: &[(&str, &str)]) -> World {
        World {
            logs: logs
                .iter()
                .map(|(path, content)| (path.to_string(), 1, content.to_string()))
                .collect(),
            broken: Vec::new(),
            done: Vec::new(),
            delivered: Vec::new(),
            saved: None,
            now_ns: 0,
        }
    }

    fn write(&mut self, path: &str, content: &str) {
        for log in &mut self.logs {
            if log.0 == path {
                log.1 += 1;
                log.2.push_str(content);
            }
        }
    }

    fn log(&self, path: &str) -> &(String, u64, String) {
        self.logs.iter().find(|log| log.0 == path).unwrap()
    }

    fn tree(&self) -> SessionTree {
        SessionTree {
            files: self
                .logs
                .iter()
                .map(|(path, mtime_ns, content)| SessionFile {
                    path: path.clone(),
                    session_id: None,
                    mtime_ns: *mtime_ns,
                    size: content.len() as u64,
                })
                .collect(),
        }
    }

    /// Does what the watcher asks for until it waits or stops.
    fn drive(&mut self, watcher: &mut Watcher, first: Action) -> Action {
        let mut action = first;
        loop {
            let report = match action {
                Action::Scan => {
                    self.done.push("scan".to_string());
                    Report::Scanned {
                        tree: self.tree(),
                        recent: Vec::new(),
                    }
                }
                Action::ReadLogs { paths } => {
                    self.done.push(format!("read {}", paths.join(" ")));
                    Report::LogsRead {
                        contents: paths
                            .iter()
                            .map(|path| self.log(path).2.as_bytes().to_vec())
                            .collect(),
                    }
                }
                Action::Register { files } => {
                    self.done
                        .push(format!("register {}", files.to_list().join(" ")));
                    Report::Registered {
                        files: files.difference(&StringSet::from_list(&self.broken)),
                    }
                }
                Action::Inspect { paths } => {
                    self.done.push(format!("inspect {}", paths.join(" ")));
                    Report::Inspected {
                        logs: paths
                            .iter()
                            .map(|path| {
                                let log = self.log(path);
                                LogSnapshot {
                                    path: path.clone(),
                                    mtime_ns: log.1,
                                    size: log.2.len() as u64,
                                    content: log.2.as_bytes().to_vec(),
                                }
                            })
                            .collect(),
                    }
                }
                Action::ReadClock => {
                    self.done.push("clock".to_string());
                    Report::Clock {
                        now_ns: self.now_ns,
                    }
                }
                Action::Save => {
                    self.done.push("save".to_string());
                    self.saved = Some(watcher.state.clone());
                    Report::Saved
                }
                Action::Deliver { events } => {
                    assert!(!watcher.dirty);
                    self.done.push("deliver".to_string());
                    for event in events {
                        self.delivered.push(event.command);
                    }
                    Report::Delivered
                }
                other => return other,
            };
            assert!(watcher.accepts(&report));
            action = watcher.step(report);
        }
    }

    fn start(&mut self) -> Watcher {
        let (mut watcher, action) = Watcher::start(self.saved.clone(), self.now_ns);
        assert!(matches!(self.drive(&mut watcher, action), Action::Poll));
        watcher
    }

    fn poll(&mut self, watcher: &mut Watcher, outcome: Polled) {
        self.done.clear();
        let action = watcher.step(Report::Polled { outcome });
        assert!(matches!(self.drive(watcher, action), Action::Poll));
    }

    fn change(&mut self, watcher: &mut Watcher, path: &str) {
        let path = path.to_string();
        self.poll(watcher, Polled::Changed { path });
    }

    fn idle(&mut self, watcher: &mut Watcher) {
        let now_ns = self.now_ns;
        self.poll(watcher, Polled::Nothing { now_ns });
    }
}

#[test]
fn the_first_run_delivers_nothing() {
    let old = format!("{META}{}", call_line("old"));
    let mut world = World::new(&[("/a", &old), ("/b", "")]);
    let watcher = world.start();
    assert_eq!(
        world.done,
        vec![
            "scan",
            "read /a /b",
            "register /a /b",
            "inspect /a /b",
            "save"
        ]
    );
    assert!(world.delivered.is_empty());
    assert!(!watcher.dirty);
    let saved = world.saved.unwrap();
    assert!(saved.initialized);
    let known = saved.files.get("/a").unwrap();
    assert_eq!(known.offset, old.len() as u64);
    assert_eq!(known.session_id.as_deref(), Some("sess-1"));
    assert!(known.seen_calls.is_empty());
}

#[test]
fn an_appended_prompt_is_delivered_once_saved() {
    let mut world = World::new(&[("/a", META)]);
    let mut watcher = world.start();
    world.write("/a", &call_line("one"));
    world.change(&mut watcher, "/a");
    assert_eq!(world.done, vec!["inspect /a", "save", "deliver"]);
    assert_eq!(world.delivered, vec!["one"]);
    assert_eq!(
        world.saved.as_ref().unwrap().files.get("/a").unwrap().seen_calls,
        vec!["one"]
    );

    world.change(&mut watcher, "/a");
    assert_eq!(world.done, vec!["inspect /a"]);
    assert_eq!(world.delivered, vec!["one"]);
}

#[test]
fn a_later_run_delivers_what_was_written_in_between() {
    let mut world = World::new(&[("/a", META), ("/b", META)]);
    world.start();
    world.write("/b", &call_line("late"));
    world.done.clear();
    world.start();
    assert_eq!(
        world.done,
        vec![
            "scan",
            "read ",
            "register /a /b",
            "inspect /a /b",
            "save",
            "deliver"
        ]
    );
    assert_eq!(world.delivered, vec!["late"]);
}

#[test]
fn all_logs_are_looked_at_when_it_is_time() {
    let mut world = World::new(&[("/a", META), ("/gone", META)]);
    let mut watcher = world.start();
    world.now_ns = TOPOLOGY_RESCAN_INTERVAL_NS - 1;
    world.idle(&mut watcher);
    assert!(world.done.is_empty());

    world.logs.remove(1);
    world.logs.push(("/new".to_string(), 1, format!("{META}{}", call_line("new"))));
    world.now_ns = TOPOLOGY_RESCAN_INTERVAL_NS;
    world.idle(&mut watcher);
    assert_eq!(
        world.done,
        vec![
            "scan",
            "register /a /new",
            "read /new",
            "inspect /new",
            "clock",
            "save",
            "deliver"
        ]
    );
    assert_eq!(world.delivered, vec!["new"]);
    assert!(watcher.state.files.get("/gone").is_none());
    assert_eq!(watcher.last_reconcile_ns, TOPOLOGY_RESCAN_INTERVAL_NS);

    world.now_ns += TOPOLOGY_RESCAN_INTERVAL_NS;
    world.idle(&mut watcher);
    assert_eq!(world.done, vec!["scan", "read ", "inspect ", "clock"]);
}

#[test]
fn a_clock_that_goes_back_brings_no_look() {
    let mut world = World::new(&[]);
    world.now_ns = TOPOLOGY_RESCAN_INTERVAL_NS * 3;
    let mut watcher = world.start();
    world.now_ns = 0;
    world.idle(&mut watcher);
    assert!(world.done.is_empty());
}

#[test]
fn a_watch_that_failed_is_tried_again() {
    let mut world = World::new(&[("/a", META), ("/b", META)]);
    world.broken.push("/b".to_string());
    let mut watcher = world.start();
    assert_eq!(watcher.watched.to_list(), vec!["/a"]);
    world.now_ns += TOPOLOGY_RESCAN_INTERVAL_NS;
    world.broken.clear();
    world.idle(&mut watcher);
    assert_eq!(
        world.done,
        vec!["scan", "register /a /b", "read ", "inspect /b", "clock"]
    );
    assert_eq!(watcher.watched.to_list(), vec!["/a", "/b"]);
}

#[test]
fn only_the_report_that_is_waited_for_is_accepted() {
    let mut world = World::new(&[("/a", META)]);
    let (mut watcher, _) = Watcher::start(None, 0);
    assert!(!watcher.accepts(&Report::Saved));
    assert!(!watcher.accepts(&Report::StopRequested));
    watcher.step(Report::Scanned {
        tree: world.tree(),
        recent: Vec::new(),
    });
    let contents = |count: usize| Report::LogsRead {
        contents: vec![Vec::new(); count],
    };
    assert!(!watcher.accepts(&contents(0)));
    assert!(watcher.accepts(&contents(1)));
    assert!(!watcher.accepts(&contents(2)));
    let waiting = world.start();
    assert!(waiting.accepts(&Report::StopRequested));
    assert!(!waiting.accepts(&Report::Delivered));
}

#[test]
fn waiting_that_failed_is_waited_for_again() {
    let mut world = World::new(&[("/a", META)]);
    let mut watcher = world.start();
    world.poll(&mut watcher, Polled::Failed);
    assert!(world.done.is_empty());
}

#[test]
fn an_order_to_stop_is_followed() {
    let mut world = World::new(&[("/a", META)]);
    let mut watcher = world.start();
    assert!(matches!(watcher.step(Report::StopRequested), Action::Finish));

    let mut watcher = world.start();
    watcher.dirty = true;
    world.done.clear();
    let action = watcher.step(Report::StopRequested);
    assert!(matches!(world.drive(&mut watcher, action), Action::Finish));
    assert_eq!(world.done, vec!["save"]);
}

#[test]
fn a_log_that_is_no_text_ends_the_course() {
    let mut world = World::new(&[("/a", META)]);
    let mut watcher = world.start();
    watcher.step(Report::Polled {
        outcome: Polled::Changed {
            path: "/a".to_string(),
        },
    });
    let action = watcher.step(Report::Inspected {
        logs: vec![LogSnapshot {
            path: "/a".to_string(),
            mtime_ns: 9,
            size: 900,
            content: [META.as_bytes(), b"\xff\n"].concat(),
        }],
    });
    assert!(matches!(
        action,
        Action::Fail {
            error: SessionError::InvalidUtf8 { path }
        } if path == "/a"
    ));

    let (mut watcher, _) = Watcher::start(None, 0);
    watcher.step(Report::Scanned {
        tree: world.tree(),
        recent: Vec::new(),
    });
    let action = watcher.step(Report::LogsRead {
        contents: vec![b"\xff".to_vec()],
    });
    assert!(matches!(action, Action::Fail { .. }));
}
