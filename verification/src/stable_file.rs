//! How a source file can fail to open.

use vstd::prelude::*;

verus! {

/// Why a regular file could not be bound and opened.
#[derive(Clone, Copy, Debug, PartialEq, Eq, Structural)]
pub enum OpenError {
    Unavailable,
    Metadata,
    NotRegular,
    Reopen,
}

impl OpenError {
    /// What the error says.
    pub open spec fn text(self) -> Seq<char> {
        match self {
            OpenError::Unavailable => "file is unavailable"@,
            OpenError::Metadata => "file metadata is unavailable"@,
            OpenError::NotRegular => "path is not a regular file"@,
            OpenError::Reopen => "stable file could not be reopened"@,
        }
    }

    /// The error in words.
    pub fn message(self) -> (text: &'static str)
        ensures
            text@ == self.text(),
    {
        match self {
            OpenError::Unavailable => "file is unavailable",
            OpenError::Metadata => "file metadata is unavailable",
            OpenError::NotRegular => "path is not a regular file",
            OpenError::Reopen => "stable file could not be reopened",
        }
    }
}

/// What is known of a path on the way to an open regular file. A step that was
/// not reached reports nothing.
#[derive(Clone, Copy, Debug)]
pub struct Binding {
    /// Whether the path could be bound without opening it.
    pub bound: bool,
    /// Whether the bound path is a regular file, where that could be read.
    pub regular: Option<bool>,
    /// Whether the bound file could be opened for reading.
    pub reopened: bool,
}

/// The outcome of opening a regular file: the first step that failed.
pub open spec fn opened(binding: Binding) -> Result<(), OpenError> {
    if !binding.bound {
        Err(OpenError::Unavailable)
    } else {
        match binding.regular {
            None => Err(OpenError::Metadata),
            Some(false) => Err(OpenError::NotRegular),
            Some(true) => if binding.reopened {
                Ok(())
            } else {
                Err(OpenError::Reopen)
            },
        }
    }
}

/// Judges what is known of a path.
pub fn judge_binding(binding: Binding) -> (result: Result<(), OpenError>)
    ensures
        result == opened(binding),
{
    if !binding.bound {
        return Err(OpenError::Unavailable);
    }
    match binding.regular {
        None => Err(OpenError::Metadata),
        Some(false) => Err(OpenError::NotRegular),
        Some(true) => if binding.reopened {
            Ok(())
        } else {
            Err(OpenError::Reopen)
        },
    }
}

/// A file is open where every step succeeded; otherwise the first step that did not is
/// named.
pub proof fn law_the_first_failed_step_is_named(binding: Binding)
    ensures
        opened(binding) is Ok <==> binding.bound && binding.regular == Some(true)
            && binding.reopened,
        opened(binding) == Err::<(), OpenError>(OpenError::Unavailable) <==> !binding.bound,
        opened(binding) == Err::<(), OpenError>(OpenError::Metadata) <==> binding.bound
            && binding.regular is None,
        opened(binding) == Err::<(), OpenError>(OpenError::NotRegular) <==> binding.bound
            && binding.regular == Some(false),
        opened(binding) == Err::<(), OpenError>(OpenError::Reopen) <==> binding.bound
            && binding.regular == Some(true) && !binding.reopened,
{
}

} // verus!
