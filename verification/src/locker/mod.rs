//! The session locker: what it draws, how it authenticates, and how lockers of
//! one compositor find each other.

pub mod auth;
pub mod canvas;
pub mod coordination;
pub mod descriptors;
pub mod identity;
pub mod launcher;
pub mod overlay;
pub mod preview;
pub mod session;

use vstd::prelude::*;

verus! {

/// Why the session could not be locked.
#[derive(Debug)]
pub enum LockError {
    Identity(identity::IdentityError),
    ReadyFd(String),
    Coordination(coordination::CoordinationError),
    Launcher(launcher::LaunchError),
    Authentication(auth::AuthError),
    Runtime(String),
}

impl LockError {
    pub open spec fn text(self) -> Seq<char> {
        match self {
            LockError::Identity(error) => "could not resolve lock identity: "@ + error.text(),
            LockError::ReadyFd(reason) => "could not adopt readiness descriptor: "@ + reason@,
            LockError::Coordination(error) => error.text(),
            LockError::Launcher(error) => error.text(),
            LockError::Authentication(error) => error.text(),
            LockError::Runtime(reason) => reason@,
        }
    }

    /// The error as a sentence.
    pub fn message(&self) -> (text: String)
        ensures
            text@ == self.text(),
    {
        match self {
            LockError::Identity(error) => crate::text::joined(
                "could not resolve lock identity: ",
                error.message().as_str(),
            ),
            LockError::ReadyFd(reason) => crate::text::joined(
                "could not adopt readiness descriptor: ",
                reason.as_str(),
            ),
            LockError::Coordination(error) => error.message(),
            LockError::Launcher(error) => error.message(),
            LockError::Authentication(error) => error.message(),
            LockError::Runtime(reason) => reason.as_str().to_owned(),
        }
    }
}

} // verus!
