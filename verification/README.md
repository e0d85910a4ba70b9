# codex-approval-watcher

A watcher for Codex session logs. It reads the logs as they grow, finds the tool calls that ask for
escalated permissions, and delivers an `approval.requested` event for each: as a local notification,
and to the hooks that are configured.

The library in `src/` is verified with Verus. It touches no file, no clock and no process: it says
what to do, and takes reports of what came of it.

| Module | What it holds |
| --- | --- |
| `session_parser`, `json` | what a log line means, and how a log is read and read on |
| `session_tree`, `selection` | the logs that are there; which are watched, which are read again |
| `state`, `sync`, `models` | what is remembered of each log, and how it is kept up to date |
| `watcher` | the course of the watcher, step by step |
| `watch` | what a wake-up of the kernel queue means |
| `config` | the configuration, its paths and its validity |
| `notifier`, `notification_log`, `events` | notifications, and whether they were delivered |
| `dispatcher` | hooks |
| `text`, `order`, `paths`, `distinct`, `string_set`, `file_map` | the pieces that these are built from |

What holds of several functions together is stated and proved in proof functions whose names start
with `law_`; most stand in `session_laws`, `selection_laws`, `notifier_laws` and `watcher_laws`.

A few facts are taken for granted: what `serde_json` makes of a text and how its values are looked
into (`json`), that `std::str::from_utf8` decodes UTF-8 and that `String::push` appends (`text`).

`app/` is the program around the library: the command line, files, processes, threads and the
kernel queue.
