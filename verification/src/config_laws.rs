//! What configurations become and what is wrong with them, stated on their members alone.
use vstd::prelude::*;

use crate::config;
use crate::config::{ConfigProblem, ConfigView, HookView};
use crate::paths;
use crate::text;

verus! {

/// A path starts with a tilde and a slash.
pub open spec fn starts_at_home(path: Seq<char>) -> bool {
    path.len() >= 2 && path[0] == '~' && path[1] == '/'
}

/// A path below a directory: the path itself where it starts with a slash, and otherwise the two
/// with one slash between them, which is added where the directory does not end in one.
pub open spec fn is_below(result: Seq<char>, directory: Seq<char>, path: Seq<char>) -> bool {
    if path.len() > 0 && path[0] == '/' {
        result == path
    } else if directory.len() > 0 && directory[directory.len() - 1] != '/' {
        result == directory + seq!['/'] + path
    } else {
        result == directory + path
    }
}

/// Joining two paths puts the second below the first.
pub proof fn law_joined_paths(directory: Seq<char>, path: Seq<char>)
    ensures
        is_below(paths::joined(directory, path), directory, path),
{
    reveal_strlit("/");
    assert("/"@ =~= seq!['/']);
}

/// Two characters decide whether a path starts at home.
proof fn lemma_starts_at_home(path: Seq<char>)
    ensures
        starts_at_home(path) <==> "~/"@.is_prefix_of(path),
        path == seq!['~'] <==> path == "~"@,
{
    reveal_strlit("~");
    reveal_strlit("~/");
    assert("~"@ =~= seq!['~']);
    if starts_at_home(path) {
        assert("~/"@ =~= path.subrange(0, 2));
    }
    if "~/"@.is_prefix_of(path) {
        assert("~/"@[0] == path[0]);
        assert("~/"@[1] == path[1]);
    }
}

/// Where a home directory is known, a lone tilde becomes that directory, and what follows a tilde
/// and a slash at the start is put below it. Every other path stays as it is, and so does every path
/// where no home directory is known.
pub proof fn law_expansion(path: Seq<char>, home: Option<Seq<char>>)
    ensures
        home is None ==> config::expanded(path, home) == path,
        home matches Some(directory) ==> {
            &&& path == seq!['~'] ==> config::expanded(path, home) == directory
            &&& starts_at_home(path) ==> is_below(
                config::expanded(path, home),
                directory,
                path.skip(2),
            )
            &&& path != seq!['~'] && !starts_at_home(path) ==> config::expanded(path, home) == path
        },
{
    lemma_starts_at_home(path);
    match home {
        Some(directory) => law_joined_paths(directory, path.skip(2)),
        None => {},
    }
}

/// No expanded path starts with a tilde and a slash, where a home directory is known that is not
/// empty, is no lone tilde and does not start so itself.
pub proof fn law_no_expanded_path_starts_at_home(path: Seq<char>, home: Seq<char>)
    requires
        home.len() > 0,
        home != seq!['~'],
        !starts_at_home(home),
    ensures
        !starts_at_home(config::expanded(path, Some(home))),
{
    law_expansion(path, Some(home));
    let result = config::expanded(path, Some(home));
    if starts_at_home(path) && starts_at_home(result) {
        let rest = path.skip(2);
        if !(rest.len() > 0 && rest[0] == '/') {
            assert(result[0] == home[0]);
            if home.len() == 1 {
                assert(home =~= seq!['~']);
            } else {
                assert(result[1] == home[1]);
            }
        }
    }
}

/// Expanding a configuration expands its two paths and the program of every hook that has a command,
/// also of one that is a single word. The other words of each command stay, and so does everything
/// else.
pub proof fn law_programs_are_expanded(config: ConfigView, home: Option<Seq<char>>)
    ensures
        ({
            let after = config::expanded_config(config, home);
            &&& after.sessions_root == config::expanded(config.sessions_root, home)
            &&& after.state_file == config::expanded(config.state_file, home)
            &&& after.event_timeout_ms == config.event_timeout_ms
            &&& after.notifications == config.notifications
            &&& after.hooks.len() == config.hooks.len()
            &&& forall|i: int|
                #![trigger after.hooks[i]]
                #![trigger config.hooks[i]]
                0 <= i < config.hooks.len() ==> {
                    &&& after.hooks[i].name == config.hooks[i].name
                    &&& after.hooks[i].timeout_ms == config.hooks[i].timeout_ms
                    &&& after.hooks[i].command.len() == config.hooks[i].command.len()
                    &&& config.hooks[i].command.len() > 0 ==> after.hooks[i].command[0]
                        == config::expanded(config.hooks[i].command[0], home)
                }
            &&& forall|i: int, k: int|
                #![trigger after.hooks[i].command[k]]
                #![trigger config.hooks[i].command[k]]
                0 <= i < config.hooks.len() && 1 <= k < config.hooks[i].command.len()
                    ==> after.hooks[i].command[k] == config.hooks[i].command[k]
        }),
{
}

/// After expansion no path of a configuration, and no program of a hook, starts with a tilde and a
/// slash, where a home directory is known that is not empty, is no lone tilde and does not start so
/// itself.
pub proof fn law_expanded_configuration_names_its_files(config: ConfigView, home: Seq<char>)
    requires
        home.len() > 0,
        home != seq!['~'],
        !starts_at_home(home),
    ensures
        ({
            let after = config::expanded_config(config, Some(home));
            &&& !starts_at_home(after.sessions_root)
            &&& !starts_at_home(after.state_file)
            &&& forall|i: int|
                #![trigger after.hooks[i]]
                0 <= i < after.hooks.len() && after.hooks[i].command.len() > 0 ==> !starts_at_home(
                    after.hooks[i].command[0],
                )
        }),
{
    let after = config::expanded_config(config, Some(home));
    law_programs_are_expanded(config, Some(home));
    law_no_expanded_path_starts_at_home(config.sessions_root, home);
    law_no_expanded_path_starts_at_home(config.state_file, home);
    assert forall|i: int|
        #![trigger after.hooks[i]]
        0 <= i < after.hooks.len() && after.hooks[i].command.len() > 0 implies !starts_at_home(
        after.hooks[i].command[0],
    ) by {
        assert(config.hooks[i].command.len() > 0);
        law_no_expanded_path_starts_at_home(config.hooks[i].command[0], home);
    }
}

/// A hook has a name that is more than white space, a command, and time to run.
pub open spec fn is_complete_hook(hook: HookView) -> bool {
    &&& exists|i: int| 0 <= i < hook.name.len() && !text::is_white_space(#[trigger] hook.name[i])
    &&& hook.command.len() > 0
    &&& hook.timeout_ms > 0
}

/// What is wrong with the first hook that is not complete is what is wrong with the configuration:
/// that its name is blank, else that it has no command, else that it has no time to run.
pub proof fn law_first_incomplete_hook_is_named(config: ConfigView, place: int)
    requires
        0 <= place < config.hooks.len(),
        !is_complete_hook(config.hooks[place]),
        forall|i: int| 0 <= i < place ==> is_complete_hook(#[trigger] config.hooks[i]),
    ensures
        ({
            let hook = config.hooks[place];
            let problem = config::config_problem(config);
            if forall|i: int|
                0 <= i < hook.name.len() ==> text::is_white_space(#[trigger] hook.name[i]) {
                problem == Some(ConfigProblem::EmptyHookName)
            } else if hook.command.len() == 0 {
                problem == Some(ConfigProblem::MissingCommand(hook.name))
            } else {
                problem == Some(ConfigProblem::ZeroHookTimeout(hook.name))
            }
        }),
{
    let hooks = config.hooks;
    lemma_first_incomplete_hook(hooks, place);
    let hook = hooks[place];
    if !text::is_blank(hook.name) {
        let i = choose|i: int|
            0 <= i < hook.name.len() && !text::is_white_space(#[trigger] hook.name[i]);
        assert(!text::is_white_space(hook.name[i]));
    }
}

/// The first hook with something wrong decides.
proof fn lemma_first_incomplete_hook(hooks: Seq<HookView>, place: int)
    requires
        0 <= place < hooks.len(),
        !is_complete_hook(hooks[place]),
        forall|i: int| 0 <= i < place ==> is_complete_hook(#[trigger] hooks[i]),
    ensures
        config::hook_problem(hooks[place]) is Some,
        config::first_hook_problem(hooks) == config::hook_problem(hooks[place]),
    decreases hooks.len(),
{
    let rest = hooks.drop_last();
    if place < rest.len() {
        assert(rest[place] == hooks[place]);
        assert forall|i: int| 0 <= i < place implies is_complete_hook(#[trigger] rest[i]) by {
            assert(rest[i] == hooks[i]);
        }
        lemma_first_incomplete_hook(rest, place);
    } else {
        lemma_complete_hooks(rest);
        lemma_incomplete_hook(hooks[place]);
    }
}

/// Nothing is wrong with complete hooks.
proof fn lemma_complete_hooks(hooks: Seq<HookView>)
    requires
        forall|i: int| 0 <= i < hooks.len() ==> is_complete_hook(#[trigger] hooks[i]),
    ensures
        config::first_hook_problem(hooks) is None,
    decreases hooks.len(),
{
    if hooks.len() > 0 {
        let rest = hooks.drop_last();
        assert forall|i: int| 0 <= i < rest.len() implies is_complete_hook(#[trigger] rest[i]) by {
            assert(rest[i] == hooks[i]);
        }
        lemma_complete_hooks(rest);
        assert(is_complete_hook(hooks[hooks.len() - 1]));
    }
}

/// Something is wrong with a hook that is not complete.
proof fn lemma_incomplete_hook(hook: HookView)
    requires
        !is_complete_hook(hook),
    ensures
        config::hook_problem(hook) is Some,
{
    if !text::is_blank(hook.name) {
        let i = choose|i: int|
            0 <= i < hook.name.len() && !text::is_white_space(#[trigger] hook.name[i]);
        assert(!text::is_white_space(hook.name[i]));
    }
}

/// Where every hook is complete, a configuration that delivers to nobody is refused for that, else
/// one that leaves no time to wait for a change, and nothing else is refused.
pub proof fn law_problems_besides_hooks(config: ConfigView)
    requires
        forall|i: int| 0 <= i < config.hooks.len() ==> is_complete_hook(#[trigger] config.hooks[i]),
    ensures
        config::config_problem(config) == if config.hooks.len() == 0
            && !config.notifications.enabled {
            Some(ConfigProblem::NoDelivery)
        } else if config.event_timeout_ms == 0 {
            Some(ConfigProblem::ZeroEventTimeout)
        } else {
            None
        },
{
    lemma_complete_hooks(config.hooks);
}

/// What is wrong with a hook is told with its whole name between backquotes.
pub proof fn law_messages_name_the_hook(name: Seq<char>)
    ensures
        config::problem_message(ConfigProblem::MissingCommand(name)) == "hook `"@ + name
            + "` must provide a command"@,
        config::problem_message(ConfigProblem::ZeroHookTimeout(name)) == "hook `"@ + name
            + "` must have timeout_ms greater than zero"@,
        config::problem_message(ConfigProblem::EmptyHookName) == "hook name must not be empty"@,
        config::problem_message(ConfigProblem::NoDelivery)
            == "config must enable notifications or contain at least one hook"@,
        config::problem_message(ConfigProblem::ZeroEventTimeout)
            == "event_timeout_ms must be greater than zero"@,
{
}

/// The default configuration is in a fixed place below the home directory.
pub proof fn law_default_configuration(home: Seq<char>)
    ensures
        is_below(
            paths::joined(home, config::default_config_location()),
            home,
            ".config/codex-approval-watcher/config.toml"@,
        ),
{
    law_joined_paths(home, config::default_config_location());
}

} // verus!
