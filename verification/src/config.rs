//! The configuration: what it holds, how its paths are expanded, and when it is valid.
use vstd::prelude::*;

use crate::paths;
use crate::text;

verus! {

/// The configuration of the watcher.
#[derive(Debug, Clone)]
pub struct Config {
    pub sessions_root: String,
    pub state_file: String,
    pub event_timeout_ms: u64,
    pub notifications: NotificationsConfig,
    pub hooks: Vec<HookConfig>,
}

/// The settings of local notifications.
#[derive(Debug, Clone)]
pub struct NotificationsConfig {
    pub enabled: bool,
    pub sound: String,
}

/// A command that receives the events.
#[derive(Debug, Clone)]
pub struct HookConfig {
    pub name: String,
    pub command: Vec<String>,
    pub timeout_ms: u64,
}

/// What a `Config` holds, as text and numbers.
#[verifier::ext_equal]
pub struct ConfigView {
    pub sessions_root: Seq<char>,
    pub state_file: Seq<char>,
    pub event_timeout_ms: u64,
    pub notifications: NotificationsView,
    pub hooks: Seq<HookView>,
}

/// What a `NotificationsConfig` holds.
#[verifier::ext_equal]
pub struct NotificationsView {
    pub enabled: bool,
    pub sound: Seq<char>,
}

/// What a `HookConfig` holds.
#[verifier::ext_equal]
pub struct HookView {
    pub name: Seq<char>,
    pub command: Seq<Seq<char>>,
    pub timeout_ms: u64,
}

impl View for NotificationsConfig {
    type V = NotificationsView;

    open spec fn view(&self) -> NotificationsView {
        NotificationsView { enabled: self.enabled, sound: self.sound@ }
    }
}

impl View for HookConfig {
    type V = HookView;

    open spec fn view(&self) -> HookView {
        HookView {
            name: self.name@,
            command: text::texts(self.command@),
            timeout_ms: self.timeout_ms,
        }
    }
}

/// What each of a list of hooks holds.
pub open spec fn hook_views(hooks: Seq<HookConfig>) -> Seq<HookView> {
    hooks.map_values(|hook: HookConfig| hook@)
}

impl View for Config {
    type V = ConfigView;

    open spec fn view(&self) -> ConfigView {
        ConfigView {
            sessions_root: self.sessions_root@,
            state_file: self.state_file@,
            event_timeout_ms: self.event_timeout_ms,
            notifications: self.notifications@,
            hooks: hook_views(self.hooks@),
        }
    }
}

/// How long to wait for a change where the configuration does not say.
pub fn default_event_timeout_ms() -> (timeout_ms: u64)
    ensures
        timeout_ms == 1000,
{
    1000
}

/// How long a hook may take where the configuration does not say.
pub fn default_hook_timeout_ms() -> (timeout_ms: u64)
    ensures
        timeout_ms == 3000,
{
    3000
}

/// Notifications are sent where the configuration does not say.
pub fn default_notifications_enabled() -> (enabled: bool)
    ensures
        enabled,
{
    true
}

/// The sound of a notification where the configuration does not say.
pub fn default_notification_sound() -> (sound: String)
    ensures
        sound@ == "Sosumi"@,
{
    "Sosumi".to_string()
}

impl Default for NotificationsConfig {
    fn default() -> (config: Self)
        ensures
            config@ == (NotificationsView { enabled: true, sound: "Sosumi"@ }),
    {
        NotificationsConfig {
            enabled: default_notifications_enabled(),
            sound: default_notification_sound(),
        }
    }
}

/// A path with the home directory in place of a tilde that stands alone or before the first slash.
/// Where no home directory is known the path stays as it is.
pub open spec fn expanded(path: Seq<char>, home: Option<Seq<char>>) -> Seq<char> {
    match home {
        Some(directory) => if path == "~"@ {
            directory
        } else if "~/"@.is_prefix_of(path) {
            paths::joined(directory, path.skip(2))
        } else {
            path
        },
        None => path,
    }
}

/// A hook whose program is expanded as a path.
pub open spec fn expanded_hook(hook: HookView, home: Option<Seq<char>>) -> HookView {
    HookView {
        command: if hook.command.len() > 0 {
            hook.command.update(0, expanded(hook.command[0], home))
        } else {
            hook.command
        },
        ..hook
    }
}

/// A configuration whose paths are expanded.
pub open spec fn expanded_config(config: ConfigView, home: Option<Seq<char>>) -> ConfigView {
    ConfigView {
        sessions_root: expanded(config.sessions_root, home),
        state_file: expanded(config.state_file, home),
        hooks: config.hooks.map_values(|hook: HookView| expanded_hook(hook, home)),
        ..config
    }
}

/// Expands a tilde at the start of a path.
pub fn expand_path(path: &str, home: &Option<String>) -> (result: String)
    ensures
        result@ == expanded(path@, text::optional_text(*home)),
{
    proof {
        reveal_strlit("~");
        reveal_strlit("~/");
    }
    match home {
        Some(directory) => {
            let chars = text::characters(path);
            if text::same_text(path, "~") {
                return directory.clone();
            }
            if chars.len() >= 2 && chars[0] == '~' && chars[1] == '/' {
                assert("~/"@.is_prefix_of(path@));
                let rest = text::text_between(&chars, 2, chars.len());
                assert(rest@ =~= path@.skip(2));
                return paths::join(directory.as_str(), rest.as_str());
            }
            assert(!"~/"@.is_prefix_of(path@)) by {
                if "~/"@.is_prefix_of(path@) {
                    assert("~/"@[0] == path@[0]);
                    assert("~/"@[1] == path@[1]);
                }
            }
        },
        None => {},
    }
    path.to_string()
}

/// Expands the program of a hook.
fn expand_hook(hook: &HookConfig, home: &Option<String>) -> (result: HookConfig)
    ensures
        result@ == expanded_hook(hook@, text::optional_text(*home)),
{
    let mut command = text::copy_list(&hook.command);
    let ghost before = text::texts(command@);
    if command.len() > 0 {
        assert(before[0] == command@[0]@);
        let program = expand_path(command[0].as_str(), home);
        command.set(0, program);
        assert(text::texts(command@) =~= before.update(0, program@));
    }
    HookConfig { name: hook.name.clone(), command, timeout_ms: hook.timeout_ms }
}

/// Expands the paths of a configuration: the directory of the sessions, the state file, and the
/// program of each hook.
pub fn expand_config_paths(config: Config, home: &Option<String>) -> (result: Config)
    ensures
        result@ == expanded_config(config@, text::optional_text(*home)),
{
    let ghost directory = text::optional_text(*home);
    let sessions_root = expand_path(config.sessions_root.as_str(), home);
    let state_file = expand_path(config.state_file.as_str(), home);
    let mut hooks: Vec<HookConfig> = Vec::new();
    let mut i: usize = 0;
    while i < config.hooks.len()
        invariant
            i <= config.hooks@.len(),
            directory == text::optional_text(*home),
            hooks@.len() == i,
            forall|j: int|
                0 <= j < i ==> (#[trigger] hooks@[j])@ == expanded_hook(
                    config.hooks@[j]@,
                    directory,
                ),
        decreases config.hooks@.len() - i,
    {
        hooks.push(expand_hook(&config.hooks[i], home));
        i += 1;
    }
    let result = Config {
        sessions_root,
        state_file,
        event_timeout_ms: config.event_timeout_ms,
        notifications: config.notifications,
        hooks,
    };
    assert(result@.hooks =~= expanded_config(config@, directory).hooks);
    result
}

/// Why a configuration is not valid.
#[derive(Debug)]
pub enum ConfigError {
    /// The name of a hook is blank.
    EmptyHookName,
    /// A hook has no command.
    MissingCommand { hook: String },
    /// A hook has no time to run.
    ZeroHookTimeout { hook: String },
    /// Neither notifications nor hooks receive the events.
    NoDelivery,
    /// There is no time to wait for a change.
    ZeroEventTimeout,
}

/// What a `ConfigError` says.
pub enum ConfigProblem {
    EmptyHookName,
    MissingCommand(Seq<char>),
    ZeroHookTimeout(Seq<char>),
    NoDelivery,
    ZeroEventTimeout,
}

impl View for ConfigError {
    type V = ConfigProblem;

    open spec fn view(&self) -> ConfigProblem {
        match self {
            ConfigError::EmptyHookName => ConfigProblem::EmptyHookName,
            ConfigError::MissingCommand { hook } => ConfigProblem::MissingCommand(hook@),
            ConfigError::ZeroHookTimeout { hook } => ConfigProblem::ZeroHookTimeout(hook@),
            ConfigError::NoDelivery => ConfigProblem::NoDelivery,
            ConfigError::ZeroEventTimeout => ConfigProblem::ZeroEventTimeout,
        }
    }
}

/// What is wrong with a hook, if anything is.
pub open spec fn hook_problem(hook: HookView) -> Option<ConfigProblem> {
    if text::is_blank(hook.name) {
        Some(ConfigProblem::EmptyHookName)
    } else if hook.command.len() == 0 {
        Some(ConfigProblem::MissingCommand(hook.name))
    } else if hook.timeout_ms == 0 {
        Some(ConfigProblem::ZeroHookTimeout(hook.name))
    } else {
        None
    }
}

/// What is wrong with the first hook that has something wrong with it.
pub open spec fn first_hook_problem(hooks: Seq<HookView>) -> Option<ConfigProblem>
    decreases hooks.len(),
{
    if hooks.len() == 0 {
        None
    } else {
        match first_hook_problem(hooks.drop_last()) {
            Some(problem) => Some(problem),
            None => hook_problem(hooks.last()),
        }
    }
}

/// What is wrong with a configuration, if anything is. The hooks come first.
pub open spec fn config_problem(config: ConfigView) -> Option<ConfigProblem> {
    match first_hook_problem(config.hooks) {
        Some(problem) => Some(problem),
        None => if !config.notifications.enabled && config.hooks.len() == 0 {
            Some(ConfigProblem::NoDelivery)
        } else if config.event_timeout_ms == 0 {
            Some(ConfigProblem::ZeroEventTimeout)
        } else {
            None
        },
    }
}

/// What is wrong with some of the first hooks is wrong with the hooks.
proof fn lemma_hook_problem_stays(hooks: Seq<HookView>, length: int)
    requires
        0 <= length <= hooks.len(),
        first_hook_problem(hooks.take(length)) is Some,
    ensures
        first_hook_problem(hooks) == first_hook_problem(hooks.take(length)),
    decreases hooks.len(),
{
    if length < hooks.len() {
        assert(hooks.drop_last().take(length) =~= hooks.take(length));
        lemma_hook_problem_stays(hooks.drop_last(), length);
    } else {
        assert(hooks.take(length) =~= hooks);
    }
}

/// Tells what is wrong with a hook, if anything is.
fn check_hook(hook: &HookConfig) -> (result: Option<ConfigError>)
    ensures
        match result {
            Some(error) => hook_problem(hook@) == Some(error@),
            None => hook_problem(hook@) is None,
        },
{
    if text::blank(hook.name.as_str()) {
        Some(ConfigError::EmptyHookName)
    } else if hook.command.len() == 0 {
        Some(ConfigError::MissingCommand { hook: hook.name.clone() })
    } else if hook.timeout_ms == 0 {
        Some(ConfigError::ZeroHookTimeout { hook: hook.name.clone() })
    } else {
        None
    }
}

/// Checks a configuration: every hook has a name, a command and time to run, something receives
/// the events, and there is time to wait for a change.
pub fn validate_config(config: &Config) -> (result: Result<(), ConfigError>)
    ensures
        match result {
            Ok(()) => config_problem(config@) is None,
            Err(error) => config_problem(config@) == Some(error@),
        },
{
    let ghost hooks = config@.hooks;
    let mut i: usize = 0;
    assert(hooks.take(0) =~= Seq::empty());
    while i < config.hooks.len()
        invariant
            i <= config.hooks@.len(),
            hooks == config@.hooks,
            first_hook_problem(hooks.take(i as int)) is None,
        decreases config.hooks@.len() - i,
    {
        assert(hooks.take(i + 1).drop_last() =~= hooks.take(i as int));
        assert(hooks[i as int] == config.hooks@[i as int]@);
        match check_hook(&config.hooks[i]) {
            Some(error) => {
                proof {
                    lemma_hook_problem_stays(hooks, i + 1);
                }
                return Err(error);
            },
            None => {},
        }
        i += 1;
    }
    assert(hooks.take(i as int) =~= hooks);
    if !config.notifications.enabled && config.hooks.len() == 0 {
        return Err(ConfigError::NoDelivery);
    }
    if config.event_timeout_ms == 0 {
        return Err(ConfigError::ZeroEventTimeout);
    }
    Ok(())
}

/// What is wrong with a configuration, in words.
pub open spec fn problem_message(problem: ConfigProblem) -> Seq<char> {
    match problem {
        ConfigProblem::EmptyHookName => "hook name must not be empty"@,
        ConfigProblem::MissingCommand(hook) => "hook `"@ + hook + "` must provide a command"@,
        ConfigProblem::ZeroHookTimeout(hook) => "hook `"@ + hook
            + "` must have timeout_ms greater than zero"@,
        ConfigProblem::NoDelivery =>
            "config must enable notifications or contain at least one hook"@,
        ConfigProblem::ZeroEventTimeout => "event_timeout_ms must be greater than zero"@,
    }
}

impl ConfigError {
    /// What is wrong, in words.
    pub fn message(&self) -> (message: String)
        ensures
            message@ == problem_message(self@),
    {
        match self {
            ConfigError::EmptyHookName => "hook name must not be empty".to_string(),
            ConfigError::MissingCommand { hook } => "hook `".to_string().concat(
                hook.as_str(),
            ).concat("` must provide a command"),
            ConfigError::ZeroHookTimeout { hook } => "hook `".to_string().concat(
                hook.as_str(),
            ).concat("` must have timeout_ms greater than zero"),
            ConfigError::NoDelivery =>
                "config must enable notifications or contain at least one hook".to_string(),
            ConfigError::ZeroEventTimeout =>
                "event_timeout_ms must be greater than zero".to_string(),
        }
    }
}

/// A configuration is valid exactly if each hook is named, has a command and has time to run, if
/// notifications are enabled or there is a hook, and if there is time to wait for a change.
pub proof fn law_valid_configurations(config: ConfigView)
    ensures
        config_problem(config) is None <==> {
            &&& forall|i: int|
                #![trigger config.hooks[i]]
                0 <= i < config.hooks.len() ==> !text::is_blank(config.hooks[i].name)
                    && config.hooks[i].command.len() > 0 && config.hooks[i].timeout_ms > 0
            &&& config.notifications.enabled || config.hooks.len() > 0
            &&& config.event_timeout_ms > 0
        },
{
    lemma_all_hooks_fine(config.hooks);
}

/// No hook has anything wrong with it exactly if none is found.
proof fn lemma_all_hooks_fine(hooks: Seq<HookView>)
    ensures
        first_hook_problem(hooks) is None <==> forall|i: int|
            0 <= i < hooks.len() ==> hook_problem(#[trigger] hooks[i]) is None,
    decreases hooks.len(),
{
    if hooks.len() > 0 {
        let rest = hooks.drop_last();
        lemma_all_hooks_fine(rest);
        assert forall|i: int| 0 <= i < rest.len() implies rest[i] == #[trigger] hooks[i] by {}
        assert(hooks.last() == hooks[hooks.len() - 1]);
        if first_hook_problem(hooks) is None {
            assert forall|i: int| 0 <= i < hooks.len() implies hook_problem(
                #[trigger] hooks[i],
            ) is None by {
                if i < rest.len() {
                    assert(hook_problem(rest[i]) is None);
                }
            }
        } else if first_hook_problem(rest) is Some {
            let i = choose|i: int|
                0 <= i < rest.len() && hook_problem(#[trigger] rest[i]) is Some;
            assert(hook_problem(hooks[i]) is Some);
        }
    }
}

/// Expanding paths changes nothing of whether a configuration is valid, nor of what is wrong.
pub proof fn law_expansion_keeps_validity(config: ConfigView, home: Option<Seq<char>>)
    ensures
        config_problem(expanded_config(config, home)) == config_problem(config),
{
    lemma_expansion_keeps_hook_problems(config.hooks, home);
}

proof fn lemma_expansion_keeps_hook_problems(hooks: Seq<HookView>, home: Option<Seq<char>>)
    ensures
        first_hook_problem(hooks.map_values(|hook: HookView| expanded_hook(hook, home)))
            == first_hook_problem(hooks),
    decreases hooks.len(),
{
    let expand = |hook: HookView| expanded_hook(hook, home);
    if hooks.len() > 0 {
        lemma_expansion_keeps_hook_problems(hooks.drop_last(), home);
        assert(hooks.map_values(expand).drop_last() =~= hooks.drop_last().map_values(expand));
    }
}

/// Where the configuration is below a home directory.
pub open spec fn default_config_location() -> Seq<char> {
    ".config/codex-approval-watcher/config.toml"@
}

/// Where the configuration is where none is named: below the home directory, or in the working
/// directory where no home directory is known.
pub fn default_config_path_from_home(home: &Option<String>) -> (path: String)
    ensures
        path@ == (match text::optional_text(*home) {
            Some(directory) => paths::joined(directory, default_config_location()),
            None => "config.toml"@,
        }),
{
    match home {
        Some(directory) => paths::join(
            directory.as_str(),
            ".config/codex-approval-watcher/config.toml",
        ),
        None => "config.toml".to_string(),
    }
}

/// A configuration file that has to be created, with the directory that has to be there first.
#[derive(Debug)]
pub struct NewConfig {
    pub directory: Option<String>,
}

/// Whether the configuration file has to be created: only the one in the default place is, and
/// only where there is none.
pub fn default_config_to_create(path: &str, default_path: &str, exists: bool) -> (result: Option<
    NewConfig,
>)
    ensures
        result is Some <==> paths::components_of(path@) == paths::components_of(default_path@)
            && !exists,
        result matches Some(config) ==> text::optional_text(config.directory) == paths::parent_of(
            path@,
        ),
{
    if !paths::same_path(path, default_path) || exists {
        None
    } else {
        Some(NewConfig { directory: paths::parent(path) })
    }
}

} // verus!
