//! Lifecycle hooks of a leaf run: the shell commands run once the runtime is
//! up and after it has stopped, which of them are run, and how a failed
//! command is reported.

use vstd::prelude::*;
use crate::errors::LeafError;
use crate::text::{decimal_chars, decimal_text, push_str, str_chars, string_from_chars, trim_ws, trim_ws_chars};

verus! {

/// The commands of the `lifecycle` section of a configuration.
#[derive(Debug)]
pub struct LifecycleCommands {
    /// Run once the runtime is running.
    pub post_start: Option<String>,
    /// Run after the runtime has stopped without error.
    pub post_stop: Option<String>,
}

/// A command as it is run: trimmed, and nothing at all when only whitespace
/// is left.
pub open spec fn runnable(command: Seq<char>) -> Option<Seq<char>> {
    if trim_ws(command).len() == 0 {
        None
    } else {
        Some(trim_ws(command))
    }
}

/// `runnable` of an optional command.
pub open spec fn runnable_opt(command: Option<String>) -> Option<Seq<char>> {
    match command {
        Some(c) => runnable(c@),
        None => None,
    }
}

/// The command to run, trimmed, or `None` when it is blank.
pub fn runnable_command(command: &str) -> (r: Option<String>)
    ensures
        match r {
            Some(t) => runnable(command@) == Some(t@),
            None => runnable(command@) is None,
        },
{
    let cs = str_chars(command);
    let t = trim_ws_chars(&cs);
    if t.len() == 0 {
        None
    } else {
        Some(string_from_chars(t.as_slice()))
    }
}

fn runnable_option(command: &Option<String>) -> (r: Option<String>)
    ensures
        match r {
            Some(t) => runnable_opt(*command) == Some(t@),
            None => runnable_opt(*command) is None,
        },
{
    match command {
        Some(c) => runnable_command(c.as_str()),
        None => None,
    }
}

/// The hooks of a run, as they will be run.
#[derive(Debug)]
pub struct LifecyclePlan {
    /// Run once the runtime reports that it is running.
    pub post_start: Option<String>,
    /// Run after the runtime has returned, when it returned success.
    pub post_stop: Option<String>,
}

/// Plans a run from the lifecycle commands read from its configuration: a
/// failure to read them is the run's failure; otherwise the blank commands
/// are dropped and the others trimmed. The run's own result is the result of
/// the whole: a failing hook is only reported.
pub fn start_with_lifecycle(lifecycle: Result<LifecycleCommands, LeafError>) -> (r: Result<
    LifecyclePlan,
    LeafError,
>)
    ensures
        match lifecycle {
            Err(e) => r == Err::<LifecyclePlan, LeafError>(e),
            Ok(lc) => r matches Ok(p) && ((p.post_start matches Some(c) ==> runnable_opt(lc.post_start)
                == Some(c@)) && (p.post_start is None ==> runnable_opt(lc.post_start) is None) && (
            p.post_stop matches Some(c) ==> runnable_opt(lc.post_stop) == Some(c@)) && (p.post_stop is None
                ==> runnable_opt(lc.post_stop) is None)),
        },
{
    match lifecycle {
        Err(e) => Err(e),
        Ok(lc) => Ok(
            LifecyclePlan {
                post_start: runnable_option(&lc.post_start),
                post_stop: runnable_option(&lc.post_stop),
            },
        ),
    }
}

/// The post-stop command to run once the runtime returned `start_result`:
/// the planned one, when the run succeeded.
pub fn post_stop_command(plan: &LifecyclePlan, start_result: &Result<(), LeafError>) -> (r: Option<
    String,
>)
    ensures
        match (start_result, &plan.post_stop) {
            (Ok(_), Some(c)) => r matches Some(t) && t@ == c@,
            _ => r is None,
        },
{
    match (start_result, &plan.post_stop) {
        (Ok(_), Some(c)) => Some(c.clone()),
        _ => None,
    }
}

/// The message of a hook that did not succeed: its stage, the exit status
/// (the exit code, or that a signal ended it) and the command.
pub open spec fn failure_message(stage: Seq<char>, exit_code: Option<i32>, command: Seq<char>) -> Seq<
    char,
> {
    "lifecycle "@ + stage + " command failed with status "@ + match exit_code {
        Some(c) => decimal_text(c as int),
        None => "terminated by signal"@,
    } + ": "@ + command
}

/// The outcome of running the (trimmed) hook `command` of `stage`: success
/// when the process succeeded, otherwise an I/O error naming the stage, the
/// exit status and the command.
pub fn command_outcome(stage: &str, command: &str, success: bool, exit_code: Option<i32>) -> (r:
    Result<(), LeafError>)
    ensures
        success ==> r is Ok,
        !success ==> (r matches Err(LeafError::Io(m)) && m@ == failure_message(
            stage@,
            exit_code,
            command@,
        )),
{
    if success {
        return Ok(());
    }
    let mut v: Vec<char> = Vec::new();
    push_str(&mut v, "lifecycle ");
    push_str(&mut v, stage);
    push_str(&mut v, " command failed with status ");
    match exit_code {
        Some(c) => {
            let mut d = decimal_chars(c);
            v.append(&mut d);
        },
        None => {
            push_str(&mut v, "terminated by signal");
        },
    }
    push_str(&mut v, ": ");
    push_str(&mut v, command);
    assert(v@ =~= failure_message(stage@, exit_code, command@));
    Err(LeafError::Io(string_from_chars(v.as_slice())))
}

} // verus!
