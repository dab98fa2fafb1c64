//! What the greeter can ask of the login manager.

use vstd::prelude::*;

verus! {

/// The bus name of the login manager.
pub const SERVICE: &'static str = "org.freedesktop.login1";

/// The object that takes power requests.
pub const MANAGER_PATH: &'static str = "/org/freedesktop/login1";

/// The interface that takes power requests.
pub const MANAGER_INTERFACE: &'static str = "org.freedesktop.login1.Manager";

/// Whether a request may ask the user for authorization: a greeter has nobody to
/// ask.
pub const INTERACTIVE: bool = false;

/// A power request.
#[derive(Clone, Copy, Debug, PartialEq, Eq, Structural)]
pub enum Action {
    Suspend,
    Reboot,
    PowerOff,
}

impl Action {
    /// How a request is called on screen.
    pub open spec fn called(self) -> Seq<char> {
        match self {
            Action::Suspend => "Sleep"@,
            Action::Reboot => "Restart"@,
            Action::PowerOff => "Shut Down"@,
        }
    }

    /// How the login manager calls a request.
    pub open spec fn method_name(self) -> Seq<char> {
        match self {
            Action::Suspend => "Suspend"@,
            Action::Reboot => "Reboot"@,
            Action::PowerOff => "PowerOff"@,
        }
    }

    /// How the request is called on screen.
    pub fn label(self) -> (label: &'static str)
        ensures
            label@ == self.called(),
    {
        match self {
            Action::Suspend => "Sleep",
            Action::Reboot => "Restart",
            Action::PowerOff => "Shut Down",
        }
    }

    /// How the login manager calls the request.
    pub fn method(self) -> (method: &'static str)
        ensures
            method@ == self.method_name(),
    {
        match self {
            Action::Suspend => "Suspend",
            Action::Reboot => "Reboot",
            Action::PowerOff => "PowerOff",
        }
    }
}

/// Why a request failed.
#[derive(Debug)]
pub enum PowerError {
    Bus(String),
}

impl PowerError {
    pub open spec fn text(self) -> Seq<char> {
        match self {
            PowerError::Bus(reason) => "logind request failed: "@ + reason@,
        }
    }

    /// The error as a sentence.
    pub fn message(&self) -> (text: String)
        ensures
            text@ == self.text(),
    {
        match self {
            PowerError::Bus(reason) => crate::text::joined(
                "logind request failed: ",
                reason.as_str(),
            ),
        }
    }
}

/// No two requests look alike, and no two are alike to the login manager.
pub proof fn law_requests_are_told_apart(left: Action, right: Action)
    requires
        left.called() == right.called() || left.method_name() == right.method_name(),
    ensures
        left == right,
{
    reveal_strlit("Sleep");
    reveal_strlit("Restart");
    reveal_strlit("Shut Down");
    reveal_strlit("Suspend");
    reveal_strlit("Reboot");
    reveal_strlit("PowerOff");
    assert("Sleep"@[1] == 'l');
    assert("Restart"@[1] == 'e');
    assert("Shut Down"@[1] == 'h');
    assert("Suspend"@[0] == 'S');
    assert("Reboot"@[0] == 'R');
    assert("PowerOff"@[0] == 'P');
}

/// A request is called on screen by what the user wants, and by the login manager's own
/// word towards it: suspending is sleep, rebooting is a restart, powering off is a shut
/// down.
pub proof fn law_requests_are_called_by_what_they_do(action: Action)
    ensures
        action.called() == "Sleep"@ <==> action == Action::Suspend,
        action.called() == "Restart"@ <==> action == Action::Reboot,
        action.called() == "Shut Down"@ <==> action == Action::PowerOff,
        action.method_name() == "Suspend"@ <==> action == Action::Suspend,
        action.method_name() == "Reboot"@ <==> action == Action::Reboot,
        action.method_name() == "PowerOff"@ <==> action == Action::PowerOff,
{
    reveal_strlit("Sleep");
    reveal_strlit("Restart");
    reveal_strlit("Shut Down");
    reveal_strlit("Suspend");
    reveal_strlit("Reboot");
    reveal_strlit("PowerOff");
    assert("Sleep"@[1] == 'l');
    assert("Restart"@[1] == 'e');
    assert("Shut Down"@[1] == 'h');
    assert("Suspend"@[0] == 'S');
    assert("Reboot"@[0] == 'R');
    assert("PowerOff"@[0] == 'P');
}

} // verus!
