use codex_approval_watcher::config::{
    default_config_path_from_home, default_config_to_create, default_event_timeout_ms,
    default_hook_timeout_ms, default_notification_sound, default_notifications_enabled,
    expand_config_paths, expand_path, validate_config, Config, ConfigError, HookConfig,
    NotificationsConfig,
};

fn config(enabled: bool, event_timeout_ms: u64, hooks: Vec<HookConfig>) -> Config {
    Config {
        sessions_root: "/tmp/sessions".to_string(),
        state_file: "/tmp/state.json".to_string(),
        event_timeout_ms,
        notifications: NotificationsConfig {
            enabled,
            sound: "Sosumi".into(),
        },
        hooks,
    }
}

fn hook(name: &str, command: &[&str], timeout_ms: u64) -> HookConfig {
    HookConfig {
        name: name.to_string(),
        command: command.iter().map(|word| word.to_string()).collect(),
        timeout_ms,
    }
}

fn home() -> Option<String> {
    Some("/Users/tester".to_string())
}

#[test]
fn validate_config_accepts_notifications_without_hooks() {
    let config = Config {
        sessions_root: "/tmp/sessions".to_string(),
        state_file: "/tmp/state.json".to_string(),
        event_timeout_ms: 1000,
        notifications: NotificationsConfig {
            enabled: true,
            sound: "Sosumi".into(),
        },
        hooks: Vec::new(),
    };

    assert!(validate_config(&config).is_ok());
}

#[test]
fn validate_config_requires_a_delivery_path() {
    let config = Config {
        sessions_root: "/tmp/sessions".to_string(),
        state_file: "/tmp/state.json".to_string(),
        event_timeout_ms: 1000,
        notifications: NotificationsConfig {
            enabled: false,
            sound: "Sosumi".into(),
        },
        hooks: Vec::new(),
    };

    let error = validate_config(&config).unwrap_err();
    assert!(matches!(error, ConfigError::NoDelivery));
    assert_eq!(
        error.message(),
        "config must enable notifications or contain at least one hook"
    );
}

#[test]
fn validate_config_rejects_zero_hook_timeout() {
    let config = Config {
        sessions_root: "/tmp/sessions".to_string(),
        state_file: "/tmp/state.json".to_string(),
        event_timeout_ms: 1000,
        notifications: NotificationsConfig::default(),
        hooks: vec![HookConfig {
            name: "hook".into(),
            command: vec!["/tmp/hook".into()],
            timeout_ms: 0,
        }],
    };

    let error = validate_config(&config).unwrap_err();
    assert_eq!(
        error.message(),
        "hook `hook` must have timeout_ms greater than zero"
    );
}

#[test]
fn hooks_need_a_name_and_a_command() {
    let blank = config(true, 1000, vec![hook(" \t\u{a0}", &["x"], 1)]);
    let error = validate_config(&blank).unwrap_err();
    assert!(matches!(error, ConfigError::EmptyHookName));
    assert_eq!(error.message(), "hook name must not be empty");

    let idle = config(true, 1000, vec![hook("a", &["x"], 1), hook("b", &[], 0)]);
    let error = validate_config(&idle).unwrap_err();
    assert!(matches!(&error, ConfigError::MissingCommand { hook } if hook == "b"));
    assert_eq!(error.message(), "hook `b` must provide a command");
}

#[test]
fn the_first_problem_is_reported() {
    let config = config(
        false,
        0,
        vec![hook("a", &["x"], 0), hook("", &["x"], 1)],
    );
    assert!(matches!(
        validate_config(&config).unwrap_err(),
        ConfigError::ZeroHookTimeout { .. }
    ));
}

#[test]
fn waiting_needs_time() {
    let error = validate_config(&config(true, 0, Vec::new())).unwrap_err();
    assert!(matches!(error, ConfigError::ZeroEventTimeout));
    assert_eq!(error.message(), "event_timeout_ms must be greater than zero");
    assert!(validate_config(&config(false, 1, vec![hook("a", &["x"], 1)])).is_ok());
}

#[test]
fn defaults_are_in_place() {
    assert_eq!(default_event_timeout_ms(), 1000);
    assert_eq!(default_hook_timeout_ms(), 3000);
    assert!(default_notifications_enabled());
    assert_eq!(default_notification_sound(), "Sosumi");
    let notifications = NotificationsConfig::default();
    assert!(notifications.enabled);
    assert_eq!(notifications.sound, "Sosumi");
}

#[test]
fn default_config_path_prefers_home_config_directory() {
    let path = default_config_path_from_home(&Some("/Users/tester".to_string()));
    assert_eq!(
        path,
        "/Users/tester/.config/codex-approval-watcher/config.toml"
    );
}

#[test]
fn default_config_path_falls_back_to_local_config_toml_without_home() {
    let path = default_config_path_from_home(&None);
    assert_eq!(path, "config.toml");
}

#[test]
fn tildes_are_expanded() {
    assert_eq!(expand_path("~", &home()), "/Users/tester");
    assert_eq!(expand_path("~/a/b", &home()), "/Users/tester/a/b");
    assert_eq!(expand_path("~/", &home()), "/Users/tester/");
    assert_eq!(expand_path("~//a", &home()), "/a");
    assert_eq!(expand_path("~other/a", &home()), "~other/a");
    assert_eq!(expand_path("/a/~/b", &home()), "/a/~/b");
    assert_eq!(expand_path("", &home()), "");
    assert_eq!(expand_path("~/a", &None), "~/a");
    assert_eq!(expand_path("~", &None), "~");
    assert_eq!(expand_path("~/a", &Some(String::new())), "a");
}

#[test]
fn all_paths_of_a_configuration_are_expanded() {
    let mut raw = config(
        true,
        7,
        vec![hook("a", &["~/bin/run", "~/stays"], 1), hook("b", &[], 2)],
    );
    raw.sessions_root = "~/sessions".to_string();
    raw.state_file = "~".to_string();
    let expanded = expand_config_paths(raw, &home());
    assert_eq!(expanded.sessions_root, "/Users/tester/sessions");
    assert_eq!(expanded.state_file, "/Users/tester");
    assert_eq!(
        expanded.hooks[0].command,
        vec!["/Users/tester/bin/run".to_string(), "~/stays".to_string()]
    );
    assert!(expanded.hooks[1].command.is_empty());
    assert_eq!(expanded.hooks[1].name, "b");
    assert_eq!(expanded.event_timeout_ms, 7);
}

#[test]
fn default_config_bootstrap_creates_missing_default_file() {
    let config_path = "/tmp/home/.config/codex-approval-watcher/config.toml";
    let created = default_config_to_create(config_path, config_path, false).unwrap();
    assert_eq!(
        created.directory.as_deref(),
        Some("/tmp/home/.config/codex-approval-watcher")
    );
}

#[test]
fn default_config_bootstrap_does_not_overwrite_existing_file() {
    let config_path = "/tmp/home/.config/codex-approval-watcher/config.toml";
    assert!(default_config_to_create(config_path, config_path, true).is_none());
}

#[test]
fn default_config_bootstrap_skips_non_default_paths() {
    let config_path = "/tmp/home/custom.toml";
    let default_path = "/tmp/home/.config/codex-approval-watcher/config.toml";
    assert!(default_config_to_create(config_path, default_path, false).is_none());
}

#[test]
fn another_spelling_of_the_default_path_is_the_default_path() {
    let created = default_config_to_create("config.toml", "config.toml/.", false).unwrap();
    assert_eq!(created.directory.as_deref(), Some(""));
}
