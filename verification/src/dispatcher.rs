//! Hooks: which are run with what, and what becomes of a running one.
use vstd::prelude::*;

use crate::config;
use crate::config::{HookConfig, HookView};
use crate::models::{ApprovalEvent, EventView};
use crate::text;

verus! {

/// How long to wait between two looks at a running hook, in milliseconds.
pub const WAIT_INTERVAL_MS: u64 = 10;

/// A hook to run: its place among the hooks, its program and arguments, and what is added to its
/// environment.
#[derive(Debug)]
pub struct HookCall {
    pub hook: usize,
    pub program: String,
    pub args: Vec<String>,
    pub env: Vec<(String, String)>,
}

/// What a `HookCall` says.
#[verifier::ext_equal]
pub struct HookCallView {
    pub hook: int,
    pub program: Seq<char>,
    pub args: Seq<Seq<char>>,
    pub env: Seq<(Seq<char>, Seq<char>)>,
}

/// The names and values of a list of variables.
pub open spec fn variables(env: Seq<(String, String)>) -> Seq<(Seq<char>, Seq<char>)> {
    env.map_values(|variable: (String, String)| (variable.0@, variable.1@))
}

impl View for HookCall {
    type V = HookCallView;

    open spec fn view(&self) -> HookCallView {
        HookCallView {
            hook: self.hook as int,
            program: self.program@,
            args: text::texts(self.args@),
            env: variables(self.env@),
        }
    }
}

/// What an event adds to the environment of a hook.
pub open spec fn event_variables(event: EventView) -> Seq<(Seq<char>, Seq<char>)> {
    seq![
        ("CODEX_EVENT_TYPE"@, event.event),
        ("CODEX_SESSION_ID"@, event.session_id),
        ("CODEX_CWD"@, event.cwd),
    ]
}

/// The next hook to run, from a place on: the first that has a command.
pub open spec fn next_call(hooks: Seq<HookView>, event: EventView, start: int) -> Option<
    HookCallView,
>
    decreases hooks.len() - start,
{
    if start < 0 || start >= hooks.len() {
        None
    } else if hooks[start].command.len() > 0 {
        Some(
            HookCallView {
                hook: start,
                program: hooks[start].command[0],
                args: hooks[start].command.skip(1),
                env: event_variables(event),
            },
        )
    } else {
        next_call(hooks, event, start + 1)
    }
}

/// What an event adds to the environment of a hook.
fn event_environment(event: &ApprovalEvent) -> (env: Vec<(String, String)>)
    ensures
        variables(env@) == event_variables(event@),
{
    let mut env: Vec<(String, String)> = Vec::new();
    env.push(("CODEX_EVENT_TYPE".to_string(), event.event.to_string()));
    env.push(("CODEX_SESSION_ID".to_string(), event.session_id.clone()));
    env.push(("CODEX_CWD".to_string(), event.cwd.clone()));
    assert(variables(env@) =~= event_variables(event@));
    env
}

/// A hook that has a command, as it is run.
fn hook_call(hook: &HookConfig, place: usize, event: &ApprovalEvent) -> (call: HookCall)
    requires
        hook.command@.len() > 0,
    ensures
        call@ == (HookCallView {
            hook: place as int,
            program: hook@.command[0],
            args: hook@.command.skip(1),
            env: event_variables(event@),
        }),
{
    let mut args: Vec<String> = Vec::new();
    let mut i: usize = 1;
    while i < hook.command.len()
        invariant
            1 <= i <= hook.command@.len(),
            args@.len() == i - 1,
            forall|j: int| 0 <= j < args@.len() ==> (#[trigger] args@[j])@ == hook.command@[j + 1]@,
        decreases hook.command@.len() - i,
    {
        args.push(hook.command[i].clone());
        i += 1;
    }
    assert(text::texts(args@) =~= hook@.command.skip(1));
    HookCall {
        hook: place,
        program: hook.command[0].clone(),
        args,
        env: event_environment(event),
    }
}

/// The next hook to run for an event, from a place on. A hook without a command is passed over.
///
/// `dispatch_event` from the first place on begins it; `after_hook` says how it goes on.
pub fn dispatch_event(hooks: &Vec<HookConfig>, event: &ApprovalEvent, start: usize) -> (call: Option<
    HookCall,
>)
    ensures
        match call {
            Some(found) => next_call(config::hook_views(hooks@), event@, start as int) == Some(found@),
            None => next_call(config::hook_views(hooks@), event@, start as int) is None,
        },
{
    let ghost list = config::hook_views(hooks@);
    let mut place: usize = start;
    while place < hooks.len()
        invariant
            list == config::hook_views(hooks@),
            next_call(list, event@, start as int) == next_call(list, event@, place as int),
        decreases hooks@.len() - place,
    {
        assert(list[place as int] == hooks@[place as int]@);
        if hooks[place].command.len() > 0 {
            return Some(hook_call(&hooks[place], place, event));
        }
        place += 1;
    }
    None
}

/// How the running of hooks goes on.
#[derive(Debug)]
pub enum HookTurn {
    /// Run this hook.
    Run(HookCall),
    /// Every hook was run and succeeded.
    Done,
    /// A hook has failed: no further hook is run, and its failure is that of the whole.
    Stop,
}

/// What a `HookTurn` says.
pub enum HookTurnView {
    Run(HookCallView),
    Done,
    Stop,
}

impl View for HookTurn {
    type V = HookTurnView;

    open spec fn view(&self) -> HookTurnView {
        match self {
            HookTurn::Run(call) => HookTurnView::Run(call@),
            HookTurn::Done => HookTurnView::Done,
            HookTurn::Stop => HookTurnView::Stop,
        }
    }
}

/// How the running of hooks goes on after the hook at a place: the first that fails ends it.
pub open spec fn turn_after(
    hooks: Seq<HookView>,
    event: EventView,
    place: int,
    succeeded: bool,
) -> HookTurnView {
    if !succeeded {
        HookTurnView::Stop
    } else {
        match next_call(hooks, event, place + 1) {
            Some(call) => HookTurnView::Run(call),
            None => HookTurnView::Done,
        }
    }
}

/// How the running of hooks for an event goes on after the hook at a place.
pub fn after_hook(
    hooks: &Vec<HookConfig>,
    event: &ApprovalEvent,
    place: usize,
    succeeded: bool,
) -> (turn: HookTurn)
    ensures
        turn@ == turn_after(config::hook_views(hooks@), event@, place as int, succeeded),
        !succeeded <==> turn is Stop,
        succeeded ==> match turn {
            HookTurn::Run(call) => next_call(config::hook_views(hooks@), event@, place + 1) == Some(
                call@,
            ),
            _ => next_call(config::hook_views(hooks@), event@, place + 1) is None,
        },
{
    if !succeeded {
        return HookTurn::Stop;
    }
    if place >= hooks.len() {
        return HookTurn::Done;
    }
    match dispatch_event(hooks, event, place + 1) {
        Some(call) => HookTurn::Run(call),
        None => HookTurn::Done,
    }
}

/// What came of the last step with a hook.
#[derive(Debug)]
pub enum HookReport {
    /// It was started.
    Spawned,
    /// It could not be started.
    SpawnFailed,
    /// The event was handed to it, or it takes none.
    Written,
    /// The event could not be handed to it.
    WriteFailed,
    /// It was waited for.
    Waited,
    /// It has ended, with the system's words for its exit status.
    Exited { success: bool, status: String },
    /// It is still running, the given time after it was fed.
    Running { elapsed_ms: u128 },
    /// It could not be looked at.
    LookFailed,
}

/// What to do with a hook.
#[derive(Debug)]
pub enum HookStep {
    /// Hand the event to it.
    Write,
    /// Look whether it has ended.
    Look,
    /// Wait before looking again.
    Wait { interval_ms: u64 },
    /// It has done its work.
    Done,
    /// It has failed.
    Fail(HookFailure),
    /// It has taken too long: end it, and count it as failed.
    Kill(HookFailure),
}

/// Why a hook failed.
#[derive(Debug)]
pub enum HookFailure {
    /// It could not be started.
    Spawn,
    /// The event could not be handed to it.
    WriteStdin,
    /// It could not be looked at.
    Wait,
    /// It ended without success.
    Status { status: String },
    /// It took too long.
    Timeout,
}

/// Why a hook failed, in words.
pub open spec fn failure_words(failure: HookFailure, hook: HookView) -> Seq<char> {
    match failure {
        HookFailure::Spawn => "failed to spawn hook `"@ + hook.name + "`"@,
        HookFailure::WriteStdin => "failed to write stdin for hook `"@ + hook.name + "`"@,
        HookFailure::Wait => "failed to wait for hook `"@ + hook.name + "`"@,
        HookFailure::Status { status } => "hook `"@ + hook.name + "` exited with status "@
            + status@,
        HookFailure::Timeout => "hook `"@ + hook.name + "` timed out after "@ + text::decimal_of(
            hook.timeout_ms as nat,
        ) + "ms"@,
    }
}

impl HookFailure {
    /// Why a hook failed, in words.
    pub fn message(&self, hook: &HookConfig) -> (message: String)
        ensures
            message@ == failure_words(*self, hook@),
    {
        match self {
            HookFailure::Spawn => "failed to spawn hook `".to_string().concat(
                hook.name.as_str(),
            ).concat("`"),
            HookFailure::WriteStdin => "failed to write stdin for hook `".to_string().concat(
                hook.name.as_str(),
            ).concat("`"),
            HookFailure::Wait => "failed to wait for hook `".to_string().concat(
                hook.name.as_str(),
            ).concat("`"),
            HookFailure::Status { status } => "hook `".to_string().concat(
                hook.name.as_str(),
            ).concat("` exited with status ").concat(status.as_str()),
            HookFailure::Timeout => "hook `".to_string().concat(hook.name.as_str()).concat(
                "` timed out after ",
            ).concat(text::decimal(hook.timeout_ms).as_str()).concat("ms"),
        }
    }
}

/// The step with a hook that follows a report.
pub open spec fn next_hook_step(report: HookReport, timeout_ms: u64) -> HookStep {
    match report {
        HookReport::Spawned => HookStep::Write,
        HookReport::SpawnFailed => HookStep::Fail(HookFailure::Spawn),
        HookReport::Written => HookStep::Look,
        HookReport::WriteFailed => HookStep::Fail(HookFailure::WriteStdin),
        HookReport::Waited => HookStep::Look,
        HookReport::Exited { success, status } => if success {
            HookStep::Done
        } else {
            HookStep::Fail(HookFailure::Status { status })
        },
        HookReport::Running { elapsed_ms } => if elapsed_ms >= timeout_ms {
            HookStep::Kill(HookFailure::Timeout)
        } else {
            HookStep::Wait { interval_ms: WAIT_INTERVAL_MS }
        },
        HookReport::LookFailed => HookStep::Fail(HookFailure::Wait),
    }
}

/// The step with a hook that follows a report. A hook that has ended counts by its exit status,
/// however long it took.
pub fn hook_step(hook: &HookConfig, report: HookReport) -> (step: HookStep)
    ensures
        step == next_hook_step(report, hook.timeout_ms),
{
    match report {
        HookReport::Spawned => HookStep::Write,
        HookReport::SpawnFailed => HookStep::Fail(HookFailure::Spawn),
        HookReport::Written => HookStep::Look,
        HookReport::WriteFailed => HookStep::Fail(HookFailure::WriteStdin),
        HookReport::Waited => HookStep::Look,
        HookReport::Exited { success, status } => {
            if success {
                HookStep::Done
            } else {
                HookStep::Fail(HookFailure::Status { status })
            }
        },
        HookReport::Running { elapsed_ms } => {
            if elapsed_ms >= hook.timeout_ms as u128 {
                HookStep::Kill(HookFailure::Timeout)
            } else {
                HookStep::Wait { interval_ms: WAIT_INTERVAL_MS }
            }
        },
        HookReport::LookFailed => HookStep::Fail(HookFailure::Wait),
    }
}

/// Going from each hook that is run to the one after it, every hook with a command is run, each
/// once, in order: the next one is never before the place asked for, and none with a command lies
/// between.
pub proof fn law_no_hook_is_passed_over(hooks: Seq<HookView>, event: EventView, start: int)
    requires
        0 <= start <= hooks.len(),
    ensures
        match next_call(hooks, event, start) {
            Some(call) => {
                &&& start <= call.hook < hooks.len()
                &&& hooks[call.hook].command.len() > 0
                &&& forall|i: int| start <= i < call.hook ==> (#[trigger] hooks[i]).command.len() == 0
            },
            None => forall|i: int|
                start <= i < hooks.len() ==> (#[trigger] hooks[i]).command.len() == 0,
        },
    decreases hooks.len() - start,
{
    if start < hooks.len() && hooks[start].command.len() == 0 {
        law_no_hook_is_passed_over(hooks, event, start + 1);
    }
}

/// The places of the hooks that are run from a place on, where `outcomes` tells of each hook whether
/// it succeeds when it is run.
pub open spec fn hooks_run(
    hooks: Seq<HookView>,
    event: EventView,
    start: int,
    outcomes: Seq<bool>,
) -> Seq<int>
    decreases hooks.len() - start,
{
    match next_call(hooks, event, start) {
        Some(call) => if start <= call.hook < hooks.len() {
            seq![call.hook] + match turn_after(hooks, event, call.hook, outcomes[call.hook]) {
                HookTurnView::Stop => Seq::empty(),
                _ => hooks_run(hooks, event, call.hook + 1, outcomes),
            }
        } else {
            Seq::empty()
        },
        None => Seq::empty(),
    }
}

/// How the running of hooks ends, from a place on: well, or with a failure.
pub open spec fn ends_well(
    hooks: Seq<HookView>,
    event: EventView,
    start: int,
    outcomes: Seq<bool>,
) -> bool
    decreases hooks.len() - start,
{
    match next_call(hooks, event, start) {
        Some(call) => start <= call.hook < hooks.len() && match turn_after(
            hooks,
            event,
            call.hook,
            outcomes[call.hook],
        ) {
            HookTurnView::Stop => false,
            HookTurnView::Done => true,
            HookTurnView::Run(_) => ends_well(hooks, event, call.hook + 1, outcomes),
        },
        None => true,
    }
}

/// A hook is run exactly if it has a command and every hook with a command before it succeeded, so
/// the first that fails is the last that is run. All ends well exactly if every hook with a command
/// succeeds; without such hooks it does.
pub proof fn law_first_failure_ends_dispatch(
    hooks: Seq<HookView>,
    event: EventView,
    start: int,
    outcomes: Seq<bool>,
)
    requires
        0 <= start <= hooks.len(),
    ensures
        forall|i: int|
            #![trigger hooks_run(hooks, event, start, outcomes).contains(i)]
            hooks_run(hooks, event, start, outcomes).contains(i) <==> {
                &&& start <= i < hooks.len()
                &&& hooks[i].command.len() > 0
                &&& forall|j: int|
                    #![trigger hooks[j]]
                    start <= j < i && hooks[j].command.len() > 0 ==> outcomes[j]
            },
        ends_well(hooks, event, start, outcomes) <==> forall|i: int|
            #![trigger hooks[i]]
            start <= i < hooks.len() && hooks[i].command.len() > 0 ==> outcomes[i],
    decreases hooks.len() - start,
{
    law_no_hook_is_passed_over(hooks, event, start);
    let run = hooks_run(hooks, event, start, outcomes);
    match next_call(hooks, event, start) {
        Some(call) => {
            let first = call.hook;
            let later = hooks_run(hooks, event, first + 1, outcomes);
            law_first_failure_ends_dispatch(hooks, event, first + 1, outcomes);
            assert(run[0] == first);
            if !outcomes[first] {
                assert(run =~= seq![first]);
            } else {
                assert(run =~= seq![first] + later);
            }
            assert forall|i: int| #![trigger run.contains(i)] run.contains(i) <==> {
                &&& start <= i < hooks.len()
                &&& hooks[i].command.len() > 0
                &&& forall|j: int|
                    #![trigger hooks[j]]
                    start <= j < i && hooks[j].command.len() > 0 ==> outcomes[j]
            } by {
                if outcomes[first] {
                    lemma_one_before(first, later, i);
                }
                if i > first && !outcomes[first] {
                    assert(hooks[first].command.len() > 0);
                }
            }
            if outcomes[first] && next_call(hooks, event, first + 1) is None {
                assert(ends_well(hooks, event, first + 1, outcomes));
            }
        },
        None => {},
    }
}

/// The members of a list with one more number in front.
proof fn lemma_one_before(first: int, rest: Seq<int>, number: int)
    ensures
        (seq![first] + rest).contains(number) <==> number == first || rest.contains(number),
{
    let all = seq![first] + rest;
    assert(all[0] == first);
    if rest.contains(number) {
        let i = choose|i: int| 0 <= i < rest.len() && rest[i] == number;
        assert(all[i + 1] == number);
    }
    if all.contains(number) && number != first {
        let i = choose|i: int| 0 <= i < all.len() && all[i] == number;
        assert(rest[i - 1] == number);
    }
}

} // verus!
