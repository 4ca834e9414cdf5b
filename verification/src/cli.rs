//! The decisions the command-line entry point makes before it reads the
//! repository: refusing the `pull_request_target` trigger, and refusing to
//! report success for a command this build does not implement.

use vstd::prelude::*;
use crate::text::{push_str, str_eq, string_of};

verus! {

/// The exit code for "vibe-check itself could not produce a verdict".
pub const FAILURE: u8 = 1;

/// Where the process environment is read, so that the refusal below can be
/// exercised without mutating a process-global environment.
pub trait Env {
    /// The value of `name`, if it is set.
    fn var(&self, name: &str) -> Option<String>;
}

/// The one trigger vibe-check refuses to run under.
pub open spec fn refused_trigger() -> Seq<char> {
    "pull_request_target"@
}

/// The refusal, naming the trigger and saying there is no way around it.
pub open spec fn refusal_text() -> Seq<char> {
    "vibe-check refuses to run on `pull_request_target`.\nThat trigger grants a write token and repository secrets to a workflow evaluating fork-authored code, which makes the ForgeRead/ForgeWrite split unenforceable. Use `on: pull_request`.\nThere is no option that permits this."@
}

/// Refuse the `pull_request_target` trigger, given the value of
/// `GITHUB_EVENT_NAME`; every other value, and an unset one, is allowed.
/// There is no escape hatch.
pub fn refusal_for_event(event: Option<&str>) -> (r: Result<(), String>)
    ensures
        r is Err <==> (event matches Some(e) && e@ == refused_trigger()),
        r matches Err(m) ==> m@ == refusal_text(),
{
    match event {
        Some(e) => {
            if str_eq(e, "pull_request_target") {
                Err(string_of(
                    "vibe-check refuses to run on `pull_request_target`.\nThat trigger grants a write token and repository secrets to a workflow evaluating fork-authored code, which makes the ForgeRead/ForgeWrite split unenforceable. Use `on: pull_request`.\nThere is no option that permits this.",
                ))
            } else {
                Ok(())
            }
        },
        None => Ok(()),
    }
}

/// The environment variable that names the triggering event.
pub fn event_variable() -> (n: &'static str)
    ensures
        n@ == "GITHUB_EVENT_NAME"@,
{
    "GITHUB_EVENT_NAME"
}

/// Refuse to run under `pull_request_target`, reading the variable
/// [`event_variable`] names from `env` and judging its value with
/// [`refusal_for_event`]. What `env` answers is its own; whatever it
/// answers, an error is the refusal.
pub fn refuse_pull_request_target<E: Env>(env: &E) -> (r: Result<(), String>)
    ensures
        r matches Err(m) ==> m@ == refusal_text(),
{
    let name = event_variable();
    match env.var(name) {
        Some(v) => refusal_for_event(Some(v.as_str())),
        None => refusal_for_event(None),
    }
}

/// The error for a command whose stages have not landed: names the command,
/// says which milestones it waits on, and says why it does not exit 0.
pub open spec fn not_implemented_text(command: Seq<char>) -> Seq<char> {
    "`vibe-check "@ + command + "` is not implemented in this build.\nThe command surface, exit-code contract, and registration seam are in place; the classification, policy, and adjudication stages land in later milestones.\nExiting 1 rather than 0, because \"not implemented\" must never be mistaken for \"this change is fine\"."@
}

/// The error a not-yet-implemented command fails with.
pub fn not_yet_implemented(command: &str) -> (m: String)
    ensures
        m@ == not_implemented_text(command@),
{
    let mut m = string_of("`vibe-check ");
    push_str(&mut m, command);
    push_str(
        &mut m,
        "` is not implemented in this build.\nThe command surface, exit-code contract, and registration seam are in place; the classification, policy, and adjudication stages land in later milestones.\nExiting 1 rather than 0, because \"not implemented\" must never be mistaken for \"this change is fine\".",
    );
    m
}

} // verus!
