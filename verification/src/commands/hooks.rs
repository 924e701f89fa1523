//! Lifecycle hooks: which hooks a phase runs, whether they may run, and how
//! each hook's command and outcome are judged.
//!
//! Running the processes is left to the caller; these functions decide.
use vstd::prelude::*;
use crate::model::DeclarchError;
use crate::outside::{in_safe_command_class, regex_is_match, shlex_split, shlex_words};
use crate::sanitize::{displayable, sanitize_for_display};
use crate::text::{chars_of, concat2, concat3, contains_chars, has_sub, owned, push_str, starts_with_chars, string_of, trim, trim_chars, views};

verus! {

/// When a hook runs.
#[derive(Clone, Copy, Debug, PartialEq, Eq, Structural)]
pub enum LifecyclePhase {
    PreSync,
    PostSync,
    OnSuccess,
    OnFailure,
    OnUpdate,
    PreInstall,
    PostInstall,
    PreRemove,
    PostRemove,
}

/// Whether a hook runs as the user or through sudo.
#[derive(Clone, Copy, Debug, PartialEq, Eq, Structural)]
pub enum ActionType {
    User,
    Root,
}

/// What a failing hook does to the command that runs it.
#[derive(Clone, Copy, Debug, PartialEq, Eq, Structural)]
pub enum ErrorBehavior {
    Required,
    Ignore,
    Warn,
}

/// One configured hook.
#[derive(Clone, Debug)]
pub struct LifecycleAction {
    pub command: String,
    pub action_type: ActionType,
    pub phase: LifecyclePhase,
    pub package: Option<String>,
    pub error_behavior: ErrorBehavior,
}

/// The configured hooks.
#[derive(Clone, Debug)]
pub struct LifecycleConfig {
    pub actions: Vec<LifecycleAction>,
}

impl LifecycleAction {
    /// A copy of this hook.
    pub fn duplicate(&self) -> (r: LifecycleAction)
        ensures
            r == *self,
    {
        LifecycleAction {
            command: self.command.clone(),
            action_type: self.action_type,
            phase: self.phase,
            package: match &self.package {
                Some(p) => Some(p.clone()),
                None => None,
            },
            error_behavior: self.error_behavior,
        }
    }
}

/// The name a phase is shown by (its variant name).
pub open spec fn phase_title(phase: LifecyclePhase) -> Seq<char> {
    match phase {
        LifecyclePhase::PreSync => "PreSync"@,
        LifecyclePhase::PostSync => "PostSync"@,
        LifecyclePhase::OnSuccess => "OnSuccess"@,
        LifecyclePhase::OnFailure => "OnFailure"@,
        LifecyclePhase::OnUpdate => "OnUpdate"@,
        LifecyclePhase::PreInstall => "PreInstall"@,
        LifecyclePhase::PostInstall => "PostInstall"@,
        LifecyclePhase::PreRemove => "PreRemove"@,
        LifecyclePhase::PostRemove => "PostRemove"@,
    }
}

/// The name a phase is shown by.
pub fn phase_name(phase: LifecyclePhase) -> (r: String)
    ensures
        r@ == phase_title(phase),
{
    match phase {
        LifecyclePhase::PreSync => owned("PreSync"),
        LifecyclePhase::PostSync => owned("PostSync"),
        LifecyclePhase::OnSuccess => owned("OnSuccess"),
        LifecyclePhase::OnFailure => owned("OnFailure"),
        LifecyclePhase::OnUpdate => owned("OnUpdate"),
        LifecyclePhase::PreInstall => owned("PreInstall"),
        LifecyclePhase::PostInstall => owned("PostInstall"),
        LifecyclePhase::PreRemove => owned("PreRemove"),
        LifecyclePhase::PostRemove => owned("PostRemove"),
    }
}

/// What to do with a list of hooks.
#[derive(Clone, Copy, Debug, PartialEq, Eq, Structural)]
pub enum HookPlan {
    /// There are no hooks: nothing to show or run.
    Nothing,
    /// Hooks are not enabled: warn, list them, run none.
    ReportDisabled,
    /// Dry run: list them, run none.
    DryRun,
    /// List them and run each in order, stopping at the first error.
    Execute,
}

/// The plan for `count` hooks.
pub open spec fn hook_plan(count: nat, hooks_enabled: bool, dry_run: bool) -> HookPlan {
    if count == 0 {
        HookPlan::Nothing
    } else if !hooks_enabled && !dry_run {
        HookPlan::ReportDisabled
    } else if dry_run {
        HookPlan::DryRun
    } else {
        HookPlan::Execute
    }
}

/// Decides what happens to a list of hooks: nothing without hooks; with
/// hooks off (and no dry run) a warning; a listing on dry runs; else execution.
pub fn plan_hooks(
    hooks: &[LifecycleAction],
    phase_name: &str,
    hooks_enabled: bool,
    dry_run: bool,
) -> (r: HookPlan)
    ensures
        r == hook_plan(hooks@.len(), hooks_enabled, dry_run),
{
    if hooks.len() == 0 {
        HookPlan::Nothing
    } else if !hooks_enabled && !dry_run {
        HookPlan::ReportDisabled
    } else if dry_run {
        HookPlan::DryRun
    } else {
        HookPlan::Execute
    }
}

/// The hooks selected for a phase, the title they are shown under, and the plan.
#[derive(Clone, Debug)]
pub struct PhaseHooks {
    pub hooks: Vec<LifecycleAction>,
    pub title: String,
    pub plan: HookPlan,
}

/// The configured hooks of `phase`, in order.
pub open spec fn hooks_of_phase(actions: Seq<LifecycleAction>, phase: LifecyclePhase) -> Seq<LifecycleAction>
    decreases actions.len(),
{
    if actions.len() == 0 {
        Seq::empty()
    } else {
        let rest = hooks_of_phase(actions.drop_last(), phase);
        if actions.last().phase == phase {
            rest.push(actions.last())
        } else {
            rest
        }
    }
}

/// The configured hooks of `phase` that concern every package or `package`, in order.
pub open spec fn hooks_of_package(
    actions: Seq<LifecycleAction>,
    phase: LifecyclePhase,
    package: Seq<char>,
) -> Seq<LifecycleAction>
    decreases actions.len(),
{
    if actions.len() == 0 {
        Seq::empty()
    } else {
        let rest = hooks_of_package(actions.drop_last(), phase, package);
        let a = actions.last();
        if a.phase == phase && (a.package matches Some(p) ==> p@ == package) {
            rest.push(a)
        } else {
            rest
        }
    }
}

/// The configured actions, none when hooks are not configured.
pub open spec fn configured(hooks: Option<LifecycleConfig>) -> Seq<LifecycleAction> {
    match hooks {
        Some(c) => c.actions@,
        None => Seq::empty(),
    }
}

/// Selects the hooks of a phase and plans them under the phase's name.
pub fn execute_hooks_by_phase(
    hooks: &Option<LifecycleConfig>,
    phase: LifecyclePhase,
    hooks_enabled: bool,
    dry_run: bool,
) -> (r: PhaseHooks)
    ensures
        r.hooks@ == hooks_of_phase(configured(*hooks), phase),
        r.title@ == phase_title(phase),
        r.plan == hook_plan(r.hooks@.len(), hooks_enabled, dry_run),
{
    let mut selected: Vec<LifecycleAction> = Vec::new();
    if let Some(config) = hooks {
        let mut i: usize = 0;
        while i < config.actions.len()
            invariant
                i <= config.actions.len(),
                configured(*hooks) == config.actions@,
                selected@ == hooks_of_phase(config.actions@.take(i as int), phase),
            decreases config.actions.len() - i,
        {
            assert(config.actions@.take(i + 1).drop_last() =~= config.actions@.take(i as int));
            if config.actions[i].phase == phase {
                selected.push(config.actions[i].duplicate());
            }
            i += 1;
        }
        assert(config.actions@.take(config.actions.len() as int) =~= config.actions@);
    }
    let title = phase_name(phase);
    let plan = plan_hooks(selected.as_slice(), title.as_str(), hooks_enabled, dry_run);
    PhaseHooks { hooks: selected, title, plan }
}

/// Plans the pre-sync hooks.
pub fn execute_pre_sync(hooks: &Option<LifecycleConfig>, hooks_enabled: bool, dry_run: bool) -> (r: PhaseHooks)
    ensures
        r.hooks@ == hooks_of_phase(configured(*hooks), LifecyclePhase::PreSync),
        r.title@ == phase_title(LifecyclePhase::PreSync),
        r.plan == hook_plan(r.hooks@.len(), hooks_enabled, dry_run),
{
    execute_hooks_by_phase(hooks, LifecyclePhase::PreSync, hooks_enabled, dry_run)
}

/// Plans the post-sync hooks.
pub fn execute_post_sync(hooks: &Option<LifecycleConfig>, hooks_enabled: bool, dry_run: bool) -> (r: PhaseHooks)
    ensures
        r.hooks@ == hooks_of_phase(configured(*hooks), LifecyclePhase::PostSync),
        r.title@ == phase_title(LifecyclePhase::PostSync),
        r.plan == hook_plan(r.hooks@.len(), hooks_enabled, dry_run),
{
    execute_hooks_by_phase(hooks, LifecyclePhase::PostSync, hooks_enabled, dry_run)
}

/// Plans the on-success hooks.
pub fn execute_on_success(hooks: &Option<LifecycleConfig>, hooks_enabled: bool, dry_run: bool) -> (r: PhaseHooks)
    ensures
        r.hooks@ == hooks_of_phase(configured(*hooks), LifecyclePhase::OnSuccess),
        r.title@ == phase_title(LifecyclePhase::OnSuccess),
        r.plan == hook_plan(r.hooks@.len(), hooks_enabled, dry_run),
{
    execute_hooks_by_phase(hooks, LifecyclePhase::OnSuccess, hooks_enabled, dry_run)
}

/// Plans the on-failure hooks.
pub fn execute_on_failure(hooks: &Option<LifecycleConfig>, hooks_enabled: bool, dry_run: bool) -> (r: PhaseHooks)
    ensures
        r.hooks@ == hooks_of_phase(configured(*hooks), LifecyclePhase::OnFailure),
        r.title@ == phase_title(LifecyclePhase::OnFailure),
        r.plan == hook_plan(r.hooks@.len(), hooks_enabled, dry_run),
{
    execute_hooks_by_phase(hooks, LifecyclePhase::OnFailure, hooks_enabled, dry_run)
}

/// Plans the on-update hooks.
pub fn execute_on_update(hooks: &Option<LifecycleConfig>, hooks_enabled: bool, dry_run: bool) -> (r: PhaseHooks)
    ensures
        r.hooks@ == hooks_of_phase(configured(*hooks), LifecyclePhase::OnUpdate),
        r.title@ == phase_title(LifecyclePhase::OnUpdate),
        r.plan == hook_plan(r.hooks@.len(), hooks_enabled, dry_run),
{
    execute_hooks_by_phase(hooks, LifecyclePhase::OnUpdate, hooks_enabled, dry_run)
}

/// Selects the hooks of a per-package phase that concern `package_name` and
/// plans them under the title `Phase (package)`.
pub fn execute_package_phase(
    hooks: &Option<LifecycleConfig>,
    package_name: &str,
    phase: LifecyclePhase,
    hooks_enabled: bool,
    dry_run: bool,
) -> (r: PhaseHooks)
    ensures
        r.hooks@ == hooks_of_package(configured(*hooks), phase, package_name@),
        r.title@ == phase_title(phase) + " ("@ + package_name@ + ")"@,
        r.plan == hook_plan(r.hooks@.len(), hooks_enabled, dry_run),
{
    let mut selected: Vec<LifecycleAction> = Vec::new();
    if let Some(config) = hooks {
        let mut i: usize = 0;
        while i < config.actions.len()
            invariant
                i <= config.actions.len(),
                configured(*hooks) == config.actions@,
                selected@ == hooks_of_package(config.actions@.take(i as int), phase, package_name@),
            decreases config.actions.len() - i,
        {
            assert(config.actions@.take(i + 1).drop_last() =~= config.actions@.take(i as int));
            let a = &config.actions[i];
            let concerns = match &a.package {
                Some(p) => crate::text::same_text(p.as_str(), package_name),
                None => true,
            };
            if a.phase == phase && concerns {
                selected.push(a.duplicate());
            }
            i += 1;
        }
        assert(config.actions@.take(config.actions.len() as int) =~= config.actions@);
    }
    let name = phase_name(phase);
    let mut t = chars_of(name.as_str());
    push_str(&mut t, " (");
    push_str(&mut t, package_name);
    push_str(&mut t, ")");
    let title = string_of(t.as_slice());
    let plan = plan_hooks(selected.as_slice(), title.as_str(), hooks_enabled, dry_run);
    PhaseHooks { hooks: selected, title, plan }
}

/// Plans the pre-install hooks of a package.
pub fn execute_pre_install(hooks: &Option<LifecycleConfig>, package_name: &str, hooks_enabled: bool, dry_run: bool) -> (r: PhaseHooks)
    ensures
        r.hooks@ == hooks_of_package(configured(*hooks), LifecyclePhase::PreInstall, package_name@),
        r.title@ == phase_title(LifecyclePhase::PreInstall) + " ("@ + package_name@ + ")"@,
        r.plan == hook_plan(r.hooks@.len(), hooks_enabled, dry_run),
{
    execute_package_phase(hooks, package_name, LifecyclePhase::PreInstall, hooks_enabled, dry_run)
}

/// Plans the post-install hooks of a package.
pub fn execute_post_install(hooks: &Option<LifecycleConfig>, package_name: &str, hooks_enabled: bool, dry_run: bool) -> (r: PhaseHooks)
    ensures
        r.hooks@ == hooks_of_package(configured(*hooks), LifecyclePhase::PostInstall, package_name@),
        r.title@ == phase_title(LifecyclePhase::PostInstall) + " ("@ + package_name@ + ")"@,
        r.plan == hook_plan(r.hooks@.len(), hooks_enabled, dry_run),
{
    execute_package_phase(hooks, package_name, LifecyclePhase::PostInstall, hooks_enabled, dry_run)
}

/// Plans the pre-remove hooks of a package.
pub fn execute_pre_remove(hooks: &Option<LifecycleConfig>, package_name: &str, hooks_enabled: bool, dry_run: bool) -> (r: PhaseHooks)
    ensures
        r.hooks@ == hooks_of_package(configured(*hooks), LifecyclePhase::PreRemove, package_name@),
        r.title@ == phase_title(LifecyclePhase::PreRemove) + " ("@ + package_name@ + ")"@,
        r.plan == hook_plan(r.hooks@.len(), hooks_enabled, dry_run),
{
    execute_package_phase(hooks, package_name, LifecyclePhase::PreRemove, hooks_enabled, dry_run)
}

/// Plans the post-remove hooks of a package.
pub fn execute_post_remove(hooks: &Option<LifecycleConfig>, package_name: &str, hooks_enabled: bool, dry_run: bool) -> (r: PhaseHooks)
    ensures
        r.hooks@ == hooks_of_package(configured(*hooks), LifecyclePhase::PostRemove, package_name@),
        r.title@ == phase_title(LifecyclePhase::PostRemove) + " ("@ + package_name@ + ")"@,
        r.plan == hook_plan(r.hooks@.len(), hooks_enabled, dry_run),
{
    execute_package_phase(hooks, package_name, LifecyclePhase::PostRemove, hooks_enabled, dry_run)
}

/// A hook command holds at least one character, and only ASCII letters and
/// digits, `_-./:` and white space.
pub open spec fn safe_hook_command(command: Seq<char>) -> bool {
    command.len() > 0 && forall|i: int| 0 <= i < command.len() ==> in_safe_command_class(#[trigger] command[i])
}

/// The reason a hook command is refused, if it is.
pub open spec fn hook_command_problem(command: Seq<char>) -> Option<Seq<char>> {
    if "sudo "@.is_prefix_of(trim(command)) {
        Some("Embedded 'sudo' detected in hook command. Use --sudo flag instead.\n  Command: "@ + displayable(command))
    } else if !safe_hook_command(command) {
        Some("Hook command contains unsafe characters.\n  Command: "@ + displayable(command)
            + "\n  Allowed: a-zA-Z0-9_-./: and whitespace"@)
    } else if has_sub(command, "../"@) || has_sub(command, "..\\"@) {
        Some("Hook command contains path traversal sequence (../)"@)
    } else {
        None
    }
}

/// Refuses hook commands that embed `sudo`, hold characters outside the safe
/// set, or climb directories with `../`.
pub fn validate_hook_command(hook: &LifecycleAction) -> (r: Result<(), DeclarchError>)
    ensures
        match hook_command_problem(hook.command@) {
            None => r is Ok,
            Some(m) => r matches Err(DeclarchError::ConfigError(e)) && e@ == m,
        },
{
    let cmd = chars_of(hook.command.as_str());
    let trimmed = trim_chars(cmd.as_slice());
    let sudo = chars_of("sudo ");
    if starts_with_chars(trimmed.as_slice(), sudo.as_slice()) {
        let shown = sanitize_for_display(hook.command.as_str());
        return Err(DeclarchError::ConfigError(concat2(
            "Embedded 'sudo' detected in hook command. Use --sudo flag instead.\n  Command: ",
            shown.as_str(),
        )));
    }
    if !regex_is_match("^[a-zA-Z0-9_\\-.\\s/:]+$", hook.command.as_str()) {
        let shown = sanitize_for_display(hook.command.as_str());
        return Err(DeclarchError::ConfigError(concat3(
            "Hook command contains unsafe characters.\n  Command: ",
            shown.as_str(),
            "\n  Allowed: a-zA-Z0-9_-./: and whitespace",
        )));
    }
    let up = chars_of("../");
    let up_back = chars_of("..\\");
    if contains_chars(cmd.as_slice(), up.as_slice()) || contains_chars(cmd.as_slice(), up_back.as_slice()) {
        return Err(DeclarchError::ConfigError(owned("Hook command contains path traversal sequence (../)")));
    }
    Ok(())
}

/// Splits a hook's command into program and arguments by shell quoting rules.
pub fn hook_argv(hook: &LifecycleAction) -> (r: Result<Vec<String>, DeclarchError>)
    ensures
        match shlex_words(hook.command@) {
            Some(words) => r matches Ok(v) && views(v@) == words,
            None => r matches Err(DeclarchError::ConfigError(e)) && e@ == "Failed to parse hook command '"@
                + displayable(hook.command@) + "': Invalid quoting or escaping"@,
        },
{
    match shlex_split(hook.command.as_str()) {
        Some(words) => {
            assert(views(words@) =~= words@.map_values(|w: String| w@));
            Ok(words)
        },
        None => {
            let shown = sanitize_for_display(hook.command.as_str());
            Err(DeclarchError::ConfigError(concat3(
                "Failed to parse hook command '",
                shown.as_str(),
                "': Invalid quoting or escaping",
            )))
        },
    }
}

/// What a finished, failed or stuck hook leaves behind: an error that stops
/// the command, or a warning to show (or nothing).
pub fn handle_hook_status(hook: &LifecycleAction, success: bool, status: &str) -> (r: Result<Option<String>, DeclarchError>)
    ensures
        success ==> r matches Ok(None),
        !success && hook.error_behavior == ErrorBehavior::Required ==> (r matches Err(DeclarchError::Other(m))
            && m@ == "Required hook failed with status: "@ + status@),
        !success && hook.error_behavior == ErrorBehavior::Ignore ==> r matches Ok(None),
        !success && hook.error_behavior == ErrorBehavior::Warn ==> (r matches Ok(Some(w))
            && w@ == "Hook exited with status: "@ + status@),
{
    if success {
        return Ok(None);
    }
    match hook.error_behavior {
        ErrorBehavior::Required => Err(DeclarchError::Other(concat2("Required hook failed with status: ", status))),
        ErrorBehavior::Ignore => Ok(None),
        ErrorBehavior::Warn => Ok(Some(concat2("Hook exited with status: ", status))),
    }
}

/// The outcome of a hook whose program could not be started.
pub fn handle_hook_error(hook: &LifecycleAction, not_found: bool, error: &str, program: &str) -> (r: Result<Option<String>, DeclarchError>)
    ensures
        hook.error_behavior == ErrorBehavior::Required ==> (r matches Err(DeclarchError::Other(m))
            && m@ == "Failed to execute hook: "@ + error@),
        hook.error_behavior == ErrorBehavior::Ignore ==> r matches Ok(None),
        hook.error_behavior == ErrorBehavior::Warn && not_found ==> (r matches Ok(Some(w))
            && w@ == "Command not found: "@ + program@),
        hook.error_behavior == ErrorBehavior::Warn && !not_found ==> (r matches Ok(Some(w))
            && w@ == "Failed to execute hook: "@ + error@),
{
    match hook.error_behavior {
        ErrorBehavior::Required => Err(DeclarchError::Other(concat2("Failed to execute hook: ", error))),
        ErrorBehavior::Ignore => Ok(None),
        ErrorBehavior::Warn => if not_found {
            Ok(Some(concat2("Command not found: ", program)))
        } else {
            Ok(Some(concat2("Failed to execute hook: ", error)))
        },
    }
}

/// The outcome of a hook that ran past its time limit and was killed.
pub fn handle_hook_timeout(hook: &LifecycleAction) -> (r: Result<Option<String>, DeclarchError>)
    ensures
        hook.error_behavior == ErrorBehavior::Required ==> (r matches Err(DeclarchError::Other(m))
            && m@ == "Required hook timed out"@),
        hook.error_behavior == ErrorBehavior::Ignore ==> r matches Ok(None),
        hook.error_behavior == ErrorBehavior::Warn ==> (r matches Ok(Some(w)) && w@ == "Hook timed out"@),
{
    match hook.error_behavior {
        ErrorBehavior::Required => Err(DeclarchError::Other(owned("Required hook timed out"))),
        ErrorBehavior::Ignore => Ok(None),
        ErrorBehavior::Warn => Ok(Some(owned("Hook timed out"))),
    }
}

/// What happened when a hook's program was started: it exited (with
/// success or not, and its status text), it could not be started (not found
/// or another error), or it ran past its time limit and was killed.
#[derive(Clone, Debug)]
pub enum HookOutcome {
    Exited { success: bool, status: String },
    SpawnFailed { not_found: bool, error: String },
    TimedOut,
}

/// What a started hook leaves behind, by how it ended: `Err` with the message
/// of the error that stops the command, or the warning to show (if any).
/// `program` is the hook's program, named when it is not found.
pub open spec fn hook_verdict(hook: LifecycleAction, o: HookOutcome, program: Seq<char>) -> Result<Option<Seq<char>>, Seq<char>> {
    match o {
        HookOutcome::Exited { success, status } => if success {
            Ok(None)
        } else {
            match hook.error_behavior {
                ErrorBehavior::Required => Err("Required hook failed with status: "@ + status@),
                ErrorBehavior::Ignore => Ok(None),
                ErrorBehavior::Warn => Ok(Some("Hook exited with status: "@ + status@)),
            }
        },
        HookOutcome::SpawnFailed { not_found, error } => match hook.error_behavior {
            ErrorBehavior::Required => Err("Failed to execute hook: "@ + error@),
            ErrorBehavior::Ignore => Ok(None),
            ErrorBehavior::Warn => if not_found {
                Ok(Some("Command not found: "@ + program))
            } else {
                Ok(Some("Failed to execute hook: "@ + error@))
            },
        },
        HookOutcome::TimedOut => match hook.error_behavior {
            ErrorBehavior::Required => Err("Required hook timed out"@),
            ErrorBehavior::Ignore => Ok(None),
            ErrorBehavior::Warn => Ok(Some("Hook timed out"@)),
        },
    }
}

/// Root hooks run through sudo.
pub open spec fn uses_sudo(t: ActionType) -> bool {
    t == ActionType::Root
}

/// A hook's result is the one its ending calls for: an error that stops the
/// command with the message, or the warning text.
pub open spec fn result_is_verdict(r: Result<Option<String>, DeclarchError>, v: Result<Option<Seq<char>>, Seq<char>>) -> bool {
    match v {
        Ok(None) => r matches Ok(None),
        Ok(Some(w)) => r matches Ok(Some(x)) && x@ == w,
        Err(m) => r matches Err(DeclarchError::Other(e)) && e@ == m,
    }
}

/// What running one hook may give, `launch` starting its program: an error
/// for an unsafe command or one with malformed quoting; nothing for a command
/// with no words; else the verdict on how the program, started with the
/// command's words (through sudo for root hooks), ended.
pub open spec fn hook_run_result<F: Fn(&Vec<String>, bool) -> HookOutcome>(
    hook: LifecycleAction,
    launch: F,
    r: Result<Option<String>, DeclarchError>,
) -> bool {
    match hook_command_problem(hook.command@) {
        Some(m) => r matches Err(DeclarchError::ConfigError(e)) && e@ == m,
        None => match shlex_words(hook.command@) {
            None => r matches Err(DeclarchError::ConfigError(e)) && e@ == "Failed to parse hook command '"@
                + displayable(hook.command@) + "': Invalid quoting or escaping"@,
            Some(words) => if words.len() == 0 {
                r matches Ok(None)
            } else {
                exists|argv: &Vec<String>, o: HookOutcome|
                    #[trigger] call_ensures(launch, (argv, uses_sudo(hook.action_type)), o)
                    && views(argv@) == words && result_is_verdict(r, hook_verdict(hook, o, words[0]))
            },
        },
    }
}

/// Runs one hook (see `hook_run_result`); `launch` starts a program with its
/// arguments, through sudo when asked, and reports how it ended. Gives the
/// warning to show, if any.
pub fn execute_single_hook<F: Fn(&Vec<String>, bool) -> HookOutcome>(hook: &LifecycleAction, launch: &F) -> (r: Result<Option<String>, DeclarchError>)
    requires
        forall|argv: &Vec<String>, sudo: bool| #[trigger] launch.requires((argv, sudo)),
    ensures
        hook_run_result(*hook, *launch, r),
{
    validate_hook_command(hook)?;
    let argv = hook_argv(hook)?;
    assert(views(argv@).len() == argv@.len());
    if argv.len() == 0 {
        return Ok(None);
    }
    let use_sudo = match hook.action_type {
        ActionType::Root => true,
        ActionType::User => false,
    };
    let o = launch(&argv, use_sudo);
    let ghost words = views(argv@);
    assert(words[0] == argv@[0]@);
    let r = match o {
        HookOutcome::Exited { success, status } => handle_hook_status(hook, success, status.as_str()),
        HookOutcome::SpawnFailed { not_found, error } => handle_hook_error(hook, not_found, error.as_str(), argv[0].as_str()),
        HookOutcome::TimedOut => handle_hook_timeout(hook),
    };
    assert(result_is_verdict(r, hook_verdict(*hook, o, words[0])));
    assert(call_ensures(*launch, (&argv, uses_sudo(hook.action_type)), o));
    r
}

/// A hook that cannot stop the command: its command is accepted and parses,
/// and it is not required.
pub open spec fn harmless(hook: LifecycleAction) -> bool {
    hook_command_problem(hook.command@) is None && shlex_words(hook.command@) is Some
        && hook.error_behavior != ErrorBehavior::Required
}

/// The warnings of hook results, in order.
pub open spec fn result_warnings(results: Seq<Result<Option<String>, DeclarchError>>) -> Seq<Seq<char>>
    decreases results.len(),
{
    if results.len() == 0 {
        Seq::empty()
    } else {
        let rest = result_warnings(results.drop_last());
        match results.last() {
            Ok(Some(w)) => rest.push(w@),
            _ => rest,
        }
    }
}

/// A run of hooks in order, each with a result it may give (see
/// `hook_run_result`), every result before the last a success.
pub open spec fn hook_run<F: Fn(&Vec<String>, bool) -> HookOutcome>(
    hooks: Seq<LifecycleAction>,
    launch: F,
    results: Seq<Result<Option<String>, DeclarchError>>,
) -> bool {
    &&& results.len() <= hooks.len()
    &&& forall|i: int| 0 <= i < results.len() ==> hook_run_result(hooks[i], launch, #[trigger] results[i])
    &&& forall|i: int| 0 <= i < results.len() - 1 ==> (#[trigger] results[i]) is Ok
}

/// Runs a phase's hooks when the plan says so (see `hook_plan`), in order,
/// stopping at the first error; `launch` starts a program. Gives the
/// warnings to show. Nothing runs, and nothing fails, unless the plan is to
/// execute; then the result is that of a run of the hooks: the first error,
/// or, when every hook succeeded, their warnings in order. Harmless hooks
/// never fail.
pub fn execute_hooks<F: Fn(&Vec<String>, bool) -> HookOutcome>(
    hooks: &[LifecycleAction],
    phase_name: &str,
    hooks_enabled: bool,
    dry_run: bool,
    launch: F,
) -> (r: Result<Vec<String>, DeclarchError>)
    requires
        forall|argv: &Vec<String>, sudo: bool| #[trigger] launch.requires((argv, sudo)),
    ensures
        hook_plan(hooks@.len(), hooks_enabled, dry_run) != HookPlan::Execute ==> (r matches Ok(w) && w@.len() == 0),
        hook_plan(hooks@.len(), hooks_enabled, dry_run) == HookPlan::Execute ==> exists|results: Seq<Result<Option<String>, DeclarchError>>|
            #[trigger] hook_run(hooks@, launch, results) && match r {
                Ok(w) => results.len() == hooks@.len() && views(w@) == result_warnings(results),
                Err(e) => results.len() > 0 && results.last() == Err::<Option<String>, DeclarchError>(e),
            },
        (forall|i: int| 0 <= i < hooks@.len() ==> harmless(#[trigger] hooks@[i])) ==> r is Ok,
{
    let mut warnings: Vec<String> = Vec::new();
    if plan_hooks(hooks, phase_name, hooks_enabled, dry_run) != HookPlan::Execute {
        return Ok(warnings);
    }
    let ghost mut results: Seq<Result<Option<String>, DeclarchError>> = Seq::empty();
    let mut i: usize = 0;
    while i < hooks.len()
        invariant
            i <= hooks@.len(),
            hook_plan(hooks@.len(), hooks_enabled, dry_run) == HookPlan::Execute,
            forall|argv: &Vec<String>, sudo: bool| #[trigger] launch.requires((argv, sudo)),
            results.len() == i,
            hook_run(hooks@, launch, results),
            forall|j: int| 0 <= j < i ==> (#[trigger] results[j]) is Ok,
            views(warnings@) == result_warnings(results),
        decreases hooks.len() - i,
    {
        let res = execute_single_hook(&hooks[i], &launch);
        proof {
            assert(results.push(res).drop_last() =~= results);
            let next = results.push(res);
            assert forall|j: int| 0 <= j < next.len() implies hook_run_result(hooks@[j], launch, #[trigger] next[j]) by {
                if j < i {
                    assert(next[j] == results[j]);
                }
            }
            assert forall|j: int| 0 <= j < next.len() - 1 implies (#[trigger] next[j]) is Ok by {
                assert(next[j] == results[j]);
            }
            results = next;
        }
        match res {
            Ok(Some(w)) => {
                let ghost before = views(warnings@);
                warnings.push(w);
                assert(views(warnings@) =~= before.push(w@));
            },
            Ok(None) => {},
            Err(e) => {
                proof {
                    if forall|k: int| 0 <= k < hooks@.len() ==> harmless(#[trigger] hooks@[k]) {
                        assert(harmless(hooks@[i as int]));
                    }
                    assert(results.last() == Err::<Option<String>, DeclarchError>(e));
                    assert(hook_run(hooks@, launch, results));
                }
                return Err(e);
            },
        }
        i += 1;
    }
    assert(hook_run(hooks@, launch, results));
    Ok(warnings)
}

/// How a hook is listed: a lock for root hooks (an arrow otherwise), its
/// command made safe to display, and the package it concerns in brackets.
pub open spec fn hook_listing(hook: LifecycleAction) -> Seq<char> {
    (if hook.action_type == ActionType::Root { "🔒"@ } else { "→"@ }) + " "@ + displayable(hook.command@)
        + match hook.package {
        Some(p) => " ["@ + p@ + "]"@,
        None => Seq::empty(),
    }
}

/// The line a hook is listed with (see `hook_listing`).
pub fn hook_display(hook: &LifecycleAction) -> (r: String)
    ensures
        r@ == hook_listing(*hook),
{
    let mut v = match hook.action_type {
        ActionType::Root => chars_of("🔒"),
        ActionType::User => chars_of("→"),
    };
    push_str(&mut v, " ");
    let shown = sanitize_for_display(hook.command.as_str());
    push_str(&mut v, shown.as_str());
    match &hook.package {
        Some(p) => {
            push_str(&mut v, " [");
            push_str(&mut v, p.as_str());
            push_str(&mut v, "]");
        },
        None => {
            assert(v@ + Seq::<char>::empty() =~= v@);
        },
    }
    string_of(v.as_slice())
}

/// Law: the hooks a package phase runs for a package are the configured
/// hooks of that phase that apply to it: every hook of the phase without a
/// package restriction runs for every package, a hook restricted to this
/// package runs too, and no other hook does.
pub proof fn law_package_hooks_selection(actions: Seq<LifecycleAction>, phase: LifecyclePhase, package: Seq<char>)
    ensures
        forall|a: LifecycleAction| actions.contains(a) && a.phase == phase && a.package is None
            ==> #[trigger] hooks_of_package(actions, phase, package).contains(a),
        forall|a: LifecycleAction| actions.contains(a) && a.phase == phase && (a.package matches Some(p) && p@ == package)
            ==> #[trigger] hooks_of_package(actions, phase, package).contains(a),
        forall|a: LifecycleAction| #[trigger] hooks_of_package(actions, phase, package).contains(a)
            ==> actions.contains(a) && a.phase == phase && (a.package matches Some(p) ==> p@ == package),
    decreases actions.len(),
{
    if actions.len() > 0 {
        let d = actions.drop_last();
        let last = actions.last();
        law_package_hooks_selection(d, phase, package);
        let rest = hooks_of_package(d, phase, package);
        let sel = hooks_of_package(actions, phase, package);
        assert(actions =~= d.push(last));
        if last.phase == phase && (last.package matches Some(p) ==> p@ == package) {
            assert(sel == rest.push(last));
        } else {
            assert(sel == rest);
        }
        assert forall|a: LifecycleAction| actions.contains(a) && a.phase == phase && (a.package is None || (a.package matches Some(p) && p@ == package))
            implies sel.contains(a) by {
            let k = choose|k: int| 0 <= k < actions.len() && actions[k] == a;
            if k < d.len() {
                assert(d[k] == a);
                assert(rest.contains(a));
                let j = choose|j: int| 0 <= j < rest.len() && rest[j] == a;
                assert(sel[j] == a);
            } else {
                assert(sel[sel.len() - 1] == a);
            }
        }
        assert forall|a: LifecycleAction| sel.contains(a) implies actions.contains(a) && a.phase == phase
            && (a.package matches Some(p) ==> p@ == package) by {
            let j = choose|j: int| 0 <= j < sel.len() && sel[j] == a;
            if j < rest.len() {
                assert(rest[j] == a);
                assert(rest.contains(a));
                let k = choose|k: int| 0 <= k < d.len() && d[k] == a;
                assert(actions[k] == a);
            } else {
                assert(actions[actions.len() - 1] == a);
            }
        }
    }
}

} // verus!
