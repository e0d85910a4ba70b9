//! Watches session logs for approval prompts: what is read from a log line, what is remembered of
//! each log, which logs are watched and what is delivered.
pub mod choice_laws;
pub mod config;
pub mod config_laws;
pub mod course_laws;
pub mod delivery_laws;
pub mod dispatcher;
pub mod distinct;
pub mod entry_laws;
pub mod events;
pub mod file_map;
pub mod json;
pub mod log_laws;
pub mod models;
pub mod notification_log;
pub mod notifier;
pub mod notifier_laws;
pub mod order;
pub mod path_laws;
pub mod paths;
pub mod selection;
pub mod selection_laws;
pub mod session_laws;
pub mod session_parser;
pub mod session_tree;
pub mod state;
pub mod string_set;
pub mod sync;
pub mod text;
pub mod text_laws;
pub mod view_laws;
pub mod watch;
pub mod watcher;
pub mod watcher_laws;
