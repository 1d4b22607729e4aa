//! The proxy in the background: its files, and how it is stopped.

use crate::text;
use crate::text::trim;
use vstd::prelude::*;

verus! {

/// The file that holds the number of the background process.
pub const PID_FILE: &'static str = "iron-proxy.pid";

/// The file that takes the output of the background process.
pub const OUT_FILE: &'static str = "iron-proxy.out";

/// The file that takes the errors of the background process.
pub const ERR_FILE: &'static str = "iron-proxy.err";

/// What comes of stopping the background process.
#[derive(Clone, Copy, Debug, PartialEq, Eq, Structural)]
pub enum StopOutcome {
    /// It was told to stop: the file with its number is removed.
    Stopped,
    /// It could not be told: the file stays.
    Failed,
}

/// The arguments of the command that asks a process to terminate, from what the
/// file with its number holds.
pub open spec fn kill_args_of(pid_file: Seq<char>) -> Seq<Seq<char>> {
    seq!["-15"@, text::trimmed(pid_file)]
}

/// The arguments of the command that asks the background process to terminate;
/// `None` if there is no file with its number.
pub fn kill_args(pid_file: Option<String>) -> (r: Option<Vec<String>>)
    ensures
        match (pid_file, r) {
            (Some(content), Some(args)) => text::texts(args@) == kill_args_of(content@),
            (None, None) => true,
            _ => false,
        },
{
    match pid_file {
        Some(content) => {
            let mut args: Vec<String> = Vec::new();
            args.push("-15".to_owned());
            args.push(trim(content.as_str()));
            assert(text::texts(args@) =~= kill_args_of(content@));
            Some(args)
        },
        None => None,
    }
}

/// What came of stopping the background process: `exit` says whether the command
/// succeeded, and is `None` if it could not be run.
pub fn stop_outcome(exit: Option<bool>) -> (r: StopOutcome)
    ensures
        r == (if exit == Some(true) {
            StopOutcome::Stopped
        } else {
            StopOutcome::Failed
        }),
{
    match exit {
        Some(true) => StopOutcome::Stopped,
        _ => StopOutcome::Failed,
    }
}

/// The process that is asked to terminate is the one whose number is on file, without the
/// white space around it; without a file none is.
pub proof fn process_on_file_is_terminated(pid_file: Option<String>, args: Option<Vec<String>>)
    requires
        call_ensures(kill_args, (pid_file,), args),
    ensures
        args is Some <==> pid_file is Some,
        args matches Some(args) ==> args@.len() == 2 && args@[0]@ == "-15"@ && args@[1]@
            == text::trimmed(pid_file->0@),
{
    if let Some(args) = args {
        let texts = text::texts(args@);
        assert(texts.len() == args@.len());
        assert(texts == kill_args_of(pid_file->0@));
        assert(texts[0] == args@[0]@ && texts[1] == args@[1]@);
    }
}

/// The process counts as stopped only if the command ran and succeeded.
pub proof fn only_success_stops(exit: Option<bool>, outcome: StopOutcome)
    requires
        call_ensures(stop_outcome, (exit,), outcome),
    ensures
        exit == Some(true) ==> outcome is Stopped,
        exit == Some(false) ==> outcome is Failed,
        exit is None ==> outcome is Failed,
{
}

} // verus!
