//! The private worker that authenticates the user.

use vstd::prelude::*;

use crate::paths::{join, parent};
use crate::text::{same, write_number};

verus! {

/// How many events may wait for the session.
pub const EVENT_CAPACITY: usize = 128;

/// How long the worker may take to introduce itself, in nanoseconds.
pub const READY_TIMEOUT: u128 = 2_000_000_000;

/// What the worker has to say to the session.
#[derive(Debug)]
pub enum AuthEvent {
    Prompt { id: u64, secret: bool, text: String },
    Notice { error: bool, text: String },
    Success,
    Failure,
}

/// What the worker says.
#[derive(Debug)]
pub enum WorkerMessage {
    Ready { uid: u32, username: String },
    Prompt { id: u64, secret: bool, text: String },
    Info(String),
    Error(String),
    Success,
    Failure,
    /// Anything that only the session may say.
    Other,
}

/// Why authentication could not start.
#[derive(Debug)]
pub enum AuthError {
    WorkerNotFound,
    Spawn(String),
    UnexpectedWorker,
    Protocol(String),
}

impl AuthError {
    pub open spec fn text(self) -> Seq<char> {
        match self {
            AuthError::WorkerNotFound => "could not locate the private authentication worker"@,
            AuthError::Spawn(reason) => "could not start the authentication worker: "@ + reason@,
            AuthError::UnexpectedWorker =>
                "authentication worker did not provide the expected identity"@,
            AuthError::Protocol(reason) => "authentication protocol failed: "@ + reason@,
        }
    }

    /// The error as a sentence.
    pub fn message(&self) -> (text: String)
        ensures
            text@ == self.text(),
    {
        match self {
            AuthError::WorkerNotFound =>
                "could not locate the private authentication worker".to_owned(),
            AuthError::Spawn(reason) => crate::text::joined(
                "could not start the authentication worker: ",
                reason.as_str(),
            ),
            AuthError::UnexpectedWorker =>
                "authentication worker did not provide the expected identity".to_owned(),
            AuthError::Protocol(reason) => crate::text::joined(
                "authentication protocol failed: ",
                reason.as_str(),
            ),
        }
    }
}

/// Accepts the introduction of a worker that names the expected user, and
/// nothing else.
pub fn accept_worker(ready: Result<WorkerMessage, String>, uid: u32, username: &str) -> (result:
    Result<(), AuthError>)
    ensures
        match ready {
            Ok(WorkerMessage::Ready { uid: said, username: called }) => if said == uid && called@
                == username@ {
                result is Ok
            } else {
                result == Err::<(), AuthError>(AuthError::UnexpectedWorker)
            },
            Ok(_) => result == Err::<(), AuthError>(AuthError::UnexpectedWorker),
            Err(reason) => result == Err::<(), AuthError>(AuthError::Protocol(reason)),
        },
{
    match ready {
        Ok(WorkerMessage::Ready { uid: said, username: called }) => if said == uid && same(
            called.as_str(),
            username,
        ) {
            Ok(())
        } else {
            Err(AuthError::UnexpectedWorker)
        },
        Ok(_) => Err(AuthError::UnexpectedWorker),
        Err(reason) => Err(AuthError::Protocol(reason)),
    }
}

/// What follows a message of the worker.
#[derive(Debug)]
pub enum WorkerStep {
    /// Hand the event to the session and go on.
    Send(AuthEvent),
    /// The worker says it succeeded; its exit decides.
    AwaitExit,
    /// The worker is to be killed, and the session is told of a failure.
    Fail,
}

/// Decides what follows a message of the worker, or its absence.
pub fn take_worker_message(message: Option<WorkerMessage>) -> (step: WorkerStep)
    ensures
        step == match message {
            Some(WorkerMessage::Prompt { id, secret, text }) => WorkerStep::Send(
                AuthEvent::Prompt { id, secret, text },
            ),
            Some(WorkerMessage::Info(text)) => WorkerStep::Send(
                AuthEvent::Notice { error: false, text },
            ),
            Some(WorkerMessage::Error(text)) => WorkerStep::Send(
                AuthEvent::Notice { error: true, text },
            ),
            Some(WorkerMessage::Failure) => WorkerStep::Send(AuthEvent::Failure),
            Some(WorkerMessage::Success) => WorkerStep::AwaitExit,
            _ => WorkerStep::Fail,
        },
{
    match message {
        Some(WorkerMessage::Prompt { id, secret, text }) => WorkerStep::Send(
            AuthEvent::Prompt { id, secret, text },
        ),
        Some(WorkerMessage::Info(text)) => WorkerStep::Send(
            AuthEvent::Notice { error: false, text },
        ),
        Some(WorkerMessage::Error(text)) => WorkerStep::Send(
            AuthEvent::Notice { error: true, text },
        ),
        Some(WorkerMessage::Failure) => WorkerStep::Send(AuthEvent::Failure),
        Some(WorkerMessage::Success) => WorkerStep::AwaitExit,
        _ => WorkerStep::Fail,
    }
}

/// How a child process ended.
#[derive(Clone, Copy, Debug, PartialEq, Eq, Structural)]
pub enum ChildStatus {
    Exited(i32),
    Signaled(i32),
    Other,
}

/// The last event of a worker: success where it both said so and exited cleanly.
pub fn terminal_event(success: bool, status: Option<ChildStatus>) -> (event: AuthEvent)
    ensures
        event == if success && status == Some(ChildStatus::Exited(0)) {
            AuthEvent::Success
        } else {
            AuthEvent::Failure
        },
{
    let clean = match status {
        Some(ChildStatus::Exited(code)) => code == 0,
        _ => false,
    };
    if success && clean {
        AuthEvent::Success
    } else {
        AuthEvent::Failure
    }
}

/// The arguments of the worker after its own path.
pub open spec fn worker_words(parent_pid: u32) -> Seq<Seq<char>> {
    seq![
        "--fd"@,
        crate::text::written(3, 10),
        "--parent-pid"@,
        crate::text::written(parent_pid as nat, 10),
    ]
}

/// The arguments of the worker after its own path.
pub fn worker_words_for(parent_pid: u32) -> (words: Vec<String>)
    ensures
        crate::text::said(words@) == worker_words(parent_pid),
{
    let mut words: Vec<String> = Vec::new();
    words.push("--fd".to_owned());
    words.push(write_number(3, 10));
    words.push("--parent-pid".to_owned());
    words.push(write_number(parent_pid as u64, 10));
    assert(crate::text::said(words@) =~= worker_words(parent_pid));
    words
}

/// Where the worker may be: beside the program, and below its installation
/// prefix where there is one.
pub open spec fn worker_places(executable: std::path::PathBuf) -> Option<
    (std::path::PathBuf, Option<std::path::PathBuf>),
> {
    match crate::paths::path_parent(executable) {
        None => None,
        Some(directory) => Some(
            (
                crate::paths::path_join(directory, "genkan-lock-auth"@),
                match crate::paths::path_parent(directory) {
                    Some(prefix) => Some(
                        crate::paths::path_join(
                            prefix,
                            "libexec/genkan-lock-auth"@,
                        ),
                    ),
                    None => None,
                },
            ),
        ),
    }
}

/// Where the worker may be.
pub fn worker_paths(executable: &std::path::PathBuf) -> (places: Option<
    (std::path::PathBuf, Option<std::path::PathBuf>),
>)
    ensures
        places == worker_places(*executable),
{
    match parent(executable) {
        None => None,
        Some(directory) => {
            let beside = join(&directory, "genkan-lock-auth");
            let below = match parent(&directory) {
                Some(prefix) => Some(join(&prefix, "libexec/genkan-lock-auth")),
                None => None,
            };
            Some((beside, below))
        },
    }
}

/// The worker that is used: the one beside the program, or else the installed
/// one, each where it is a file.
pub fn choose_worker(
    places: Option<(std::path::PathBuf, Option<std::path::PathBuf>)>,
    beside_exists: bool,
    below_exists: bool,
) -> (worker: Result<std::path::PathBuf, AuthError>)
    ensures
        match places {
            Some((beside, below)) => if beside_exists {
                worker == Ok::<std::path::PathBuf, AuthError>(beside)
            } else if below_exists && below is Some {
                worker == Ok::<std::path::PathBuf, AuthError>(below->Some_0)
            } else {
                worker == Err::<std::path::PathBuf, AuthError>(AuthError::WorkerNotFound)
            },
            None => worker == Err::<std::path::PathBuf, AuthError>(AuthError::WorkerNotFound),
        },
{
    match places {
        Some((beside, below)) => {
            if beside_exists {
                return Ok(beside);
            }
            match below {
                Some(below) => if below_exists {
                    Ok(below)
                } else {
                    Err(AuthError::WorkerNotFound)
                },
                None => Err(AuthError::WorkerNotFound),
            }
        },
        None => Err(AuthError::WorkerNotFound),
    }
}

/// The worker is told its descriptor and its parent, each behind its own flag, in decimal.
pub proof fn law_workers_are_told_where_they_belong(parent_pid: u32)
    ensures
        ({
            let words = worker_words(parent_pid);
            &&& words.len() == 4
            &&& words[0] == "--fd"@
            &&& crate::text::number(words[1], false) == Some(3int)
            &&& words[2] == "--parent-pid"@
            &&& crate::text::number(words[3], false) == Some(parent_pid as int)
        }),
{
    crate::text::law_written_numbers_are_read_back(3);
    crate::text::law_written_numbers_are_read_back(parent_pid as nat);
}

/// The worker lies beside the program, or among the private programs below what lies two
/// levels above it, where there is such a level.
pub proof fn law_workers_lie_beside_the_program_or_below_the_prefix(
    executable: std::path::PathBuf,
    directory: std::path::PathBuf,
    prefix: std::path::PathBuf,
)
    ensures
        crate::paths::path_parent(executable) is None <==> worker_places(executable) is None,
        crate::paths::path_parent(executable) == Some(directory) && crate::paths::path_parent(
            directory,
        ) is None ==> worker_places(executable) == Some(
            (crate::paths::path_join(directory, "genkan-lock-auth"@), None::<std::path::PathBuf>),
        ),
        crate::paths::path_parent(executable) == Some(directory) && crate::paths::path_parent(
            directory,
        ) == Some(prefix) ==> worker_places(executable) == Some(
            (
                crate::paths::path_join(directory, "genkan-lock-auth"@),
                Some(crate::paths::path_join(prefix, "libexec/genkan-lock-auth"@)),
            ),
        ),
{
}

} // verus!
