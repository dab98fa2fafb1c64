//! What a locked session does with the events of its authentication worker and
//! with what is typed.

use vstd::prelude::*;

use super::auth::AuthEvent;
use crate::wallpaper::presentation::Refresh;

verus! {

/// How many events of the worker are taken in one refresh.
pub const MAX_AUTH_EVENTS_PER_REFRESH: usize = 32;

/// What the conversation is told.
#[derive(Debug)]
pub enum Response {
    Prompt { secret: bool, message: String },
    Notice { error: bool, message: String },
    Success,
    Failure(String),
}

/// What an observer of the authentication is told. It holds nothing secret.
#[derive(Clone, Copy, Debug, PartialEq, Eq, Structural)]
pub enum AuthTestEvent {
    Prompt,
    Retry,
    Success,
    Failure,
}

impl AuthTestEvent {
    pub open spec fn text(self) -> Seq<char> {
        match self {
            AuthTestEvent::Prompt => "AUTH_PROMPT"@,
            AuthTestEvent::Retry => "AUTH_RETRY"@,
            AuthTestEvent::Success => "AUTH_SUCCESS"@,
            AuthTestEvent::Failure => "AUTH_FAILURE"@,
        }
    }

    /// The line an observer gets.
    pub fn name(self) -> (name: &'static str)
        ensures
            name@ == self.text(),
    {
        match self {
            AuthTestEvent::Prompt => "AUTH_PROMPT",
            AuthTestEvent::Retry => "AUTH_RETRY",
            AuthTestEvent::Success => "AUTH_SUCCESS",
            AuthTestEvent::Failure => "AUTH_FAILURE",
        }
    }
}

/// Whether what is typed counts: not before the compositor confirmed the lock.
pub fn authentication_input_enabled(confirmed: bool) -> (enabled: bool)
    ensures
        enabled == confirmed,
{
    confirmed
}

/// What is typed.
#[derive(Debug)]
pub enum LockInput {
    Text(String),
    Backspace,
    Submit,
    Cancel,
}

/// What to do with what is typed.
#[derive(Debug)]
pub enum InputAction {
    Ignore,
    /// Add the text to the answer.
    Push(String),
    /// Take the last character of the answer away.
    Pop,
    /// Start over after a failure.
    Retry,
    /// Hand in the answer to the prompt with this number.
    Submit(u64),
    /// Give up this attempt and start another one.
    CancelAttempt,
}

/// A locked session.
#[derive(Clone, Copy, Debug, PartialEq, Eq, Structural)]
pub struct LockSession {
    /// The attempt the worker is busy with, where there is a worker.
    pub attempt: Option<u64>,
    /// The prompt that waits for an answer.
    pub prompt_id: Option<u64>,
    /// Whether the compositor confirmed the lock.
    pub confirmed: bool,
    /// Whether the user may be let in.
    pub authorized: bool,
}

/// Overwrites a text in memory and empties it, with `zeroize::Zeroize`.
#[verifier::external_body]
fn wipe(text: &mut String)
    ensures
        final(text)@.len() == 0,
{
    zeroize::Zeroize::zeroize(text)
}

/// Overwrites and empties a text that may hold a secret.
pub fn forget(text: &mut String)
    ensures
        final(text)@ == Seq::<char>::empty(),
{
    wipe(text);
    assert(text@ =~= Seq::<char>::empty());
}

/// Whether another event of the worker is taken in this refresh.
pub fn may_receive(session: &LockSession, received: usize) -> (may: bool)
    ensures
        may == (session.confirmed && received < MAX_AUTH_EVENTS_PER_REFRESH),
{
    session.confirmed && received < MAX_AUTH_EVENTS_PER_REFRESH
}

/// What may happen to a locked session.
pub enum SessionChange {
    /// The worker has something to say, and the conversation takes it or not.
    Event(AuthEvent, bool),
    /// The worker reported success, and the conversation agrees or not.
    Succeeded(bool),
    /// The compositor confirmed the lock.
    Confirmed,
    /// Something is typed, after a failure or not.
    Typed(LockInput, bool),
    /// The user starts over with this attempt, and the worker goes on or not.
    Retried(u64, bool),
    /// The user gives up the current attempt.
    Cancelled,
    /// A worker is started for this attempt, which works or not.
    Replaced(u64, bool),
    /// The authorization is handed out.
    Taken,
}

/// A session after something happened to it.
pub open spec fn changed(session: LockSession, change: SessionChange) -> LockSession {
    match change {
        SessionChange::Event(event, accepted) => if !accepted || !session.confirmed {
            session
        } else {
            match event {
                AuthEvent::Prompt { id, .. } => LockSession { prompt_id: Some(id), ..session },
                AuthEvent::Notice { .. } => session,
                AuthEvent::Success => LockSession { prompt_id: None, ..session },
                AuthEvent::Failure => LockSession { prompt_id: None, ..session },
            }
        },
        SessionChange::Succeeded(authenticated) => LockSession {
            authorized: session.authorized || authenticated && session.confirmed,
            ..session
        },
        SessionChange::Confirmed => LockSession { confirmed: true, ..session },
        SessionChange::Typed(input, failed) => if session.confirmed && input is Submit && !failed {
            LockSession { prompt_id: None, ..session }
        } else {
            session
        },
        SessionChange::Retried(next, resumed) => LockSession {
            attempt: if session.attempt is Some && resumed {
                Some(next)
            } else {
                None
            },
            prompt_id: None,
            ..session
        },
        SessionChange::Cancelled => LockSession { attempt: None, prompt_id: None, ..session },
        SessionChange::Replaced(attempt, begun) => LockSession {
            attempt: if begun {
                Some(attempt)
            } else {
                None
            },
            ..session
        },
        SessionChange::Taken => LockSession { authorized: false, ..session },
    }
}

/// A session after the first `count` things that happened to it.
pub open spec fn session_after(
    session: LockSession,
    changes: Seq<SessionChange>,
    count: int,
) -> LockSession
    decreases count,
{
    if count <= 0 {
        session
    } else {
        changed(session_after(session, changes, count - 1), changes[count - 1])
    }
}

impl LockSession {
    /// A session that is about to be locked.
    pub fn new(attempt: u64) -> (session: Self)
        ensures
            session == (LockSession {
                attempt: Some(attempt),
                prompt_id: None,
                confirmed: false,
                authorized: false,
            }),
    {
        LockSession { attempt: Some(attempt), prompt_id: None, confirmed: false, authorized: false }
    }

    /// Takes an event of the worker, and says what to tell the conversation. Nothing
    /// is taken before the compositor confirmed the lock. `accepted` says whether the
    /// conversation still takes this attempt.
    pub fn receive(&mut self, event: AuthEvent, accepted: bool) -> (response: Option<Response>)
        ensures
            *final(self) == changed(*old(self), SessionChange::Event(event, accepted)),
            !accepted || !old(self).confirmed ==> response is None,
            accepted && old(self).confirmed ==> match event {
                AuthEvent::Prompt { id, secret, text } => response == Some(
                    Response::Prompt { secret, message: text },
                ),
                AuthEvent::Notice { error, text } => response == Some(
                    Response::Notice { error, message: text },
                ),
                AuthEvent::Success => response == Some(Response::Success),
                AuthEvent::Failure => response matches Some(Response::Failure(text)) && text@
                    == "Authentication failed"@,
            },
    {
        if !accepted || !self.confirmed {
            return None;
        }
        match event {
            AuthEvent::Prompt { id, secret, text } => {
                self.prompt_id = Some(id);
                Some(Response::Prompt { secret, message: text })
            },
            AuthEvent::Notice { error, text } => Some(Response::Notice { error, message: text }),
            AuthEvent::Success => {
                self.prompt_id = None;
                Some(Response::Success)
            },
            AuthEvent::Failure => {
                self.prompt_id = None;
                Some(Response::Failure("Authentication failed".to_owned()))
            },
        }
    }

    /// Takes what the conversation made of a success.
    pub fn succeeded(&mut self, authenticated: bool)
        ensures
            *final(self) == changed(*old(self), SessionChange::Succeeded(authenticated)),
    {
        if authenticated && self.confirmed {
            self.authorized = true;
        }
    }

    /// The compositor confirmed the lock. `begun` says whether the worker could
    /// be told to begin, where there is one; the answer says whether to report
    /// that authentication is unavailable.
    pub fn lock_confirmed(&mut self, begun: bool) -> (unavailable: bool)
        ensures
            *final(self) == changed(*old(self), SessionChange::Confirmed),
            unavailable == (old(self).attempt is None || !begun),
    {
        self.confirmed = true;
        self.attempt.is_none() || !begun
    }

    /// Decides what to do with what is typed. `failed` says whether the
    /// conversation is over without success.
    pub fn input(&mut self, input: LockInput, failed: bool) -> (action: InputAction)
        ensures
            *final(self) == changed(*old(self), SessionChange::Typed(input, failed)),
            action == if !old(self).confirmed {
                InputAction::Ignore
            } else {
                match input {
                    LockInput::Text(text) => InputAction::Push(text),
                    LockInput::Backspace => InputAction::Pop,
                    LockInput::Submit => if failed {
                        InputAction::Retry
                    } else {
                        match old(self).prompt_id {
                            Some(id) => InputAction::Submit(id),
                            None => InputAction::Ignore,
                        }
                    },
                    LockInput::Cancel => if old(self).attempt is Some {
                        InputAction::CancelAttempt
                    } else {
                        InputAction::Ignore
                    },
                }
            },
    {
        if !authentication_input_enabled(self.confirmed) {
            return InputAction::Ignore;
        }
        match input {
            LockInput::Text(text) => InputAction::Push(text),
            LockInput::Backspace => InputAction::Pop,
            LockInput::Submit => {
                if failed {
                    return InputAction::Retry;
                }
                match self.prompt_id.take() {
                    Some(id) => InputAction::Submit(id),
                    None => InputAction::Ignore,
                }
            },
            LockInput::Cancel => if self.attempt.is_some() {
                InputAction::CancelAttempt
            } else {
                InputAction::Ignore
            },
        }
    }

    /// Whether the answer that the conversation handed in for an attempt goes to
    /// the worker. `None` means that there is nobody to answer; `Some(false)`
    /// that the worker is busy with another attempt.
    pub fn answer(&self, submitted: Option<u64>) -> (respond: Option<bool>)
        ensures
            respond == match (submitted, self.attempt) {
                (Some(submitted), Some(active)) => Some(submitted == active),
                _ => None,
            },
    {
        match (submitted, self.attempt) {
            (Some(submitted), Some(active)) => Some(submitted == active),
            _ => None,
        }
    }

    /// Starts over with attempt `next`. `resumed` says whether the worker could be
    /// told to; the answer says whether it has to be replaced.
    pub fn retry(&mut self, next: u64, resumed: bool) -> (replace: bool)
        ensures
            replace == !(old(self).attempt is Some && resumed),
            *final(self) == changed(*old(self), SessionChange::Retried(next, resumed)),
    {
        self.prompt_id = None;
        if self.attempt.is_some() && resumed {
            self.attempt = Some(next);
            return false;
        }
        self.attempt = None;
        true
    }

    /// Gives up the current attempt. The worker has to be replaced.
    pub fn cancel_attempt(&mut self)
        ensures
            *final(self) == changed(*old(self), SessionChange::Cancelled),
    {
        self.attempt = None;
        self.prompt_id = None;
    }

    /// Takes a new worker for an attempt, where it could be started and told to
    /// begin; the answer says whether authentication is unavailable.
    pub fn replace_worker(&mut self, attempt: u64, started: bool, begun: bool) -> (unavailable:
        bool)
        ensures
            unavailable == !(started && begun),
            *final(self) == changed(*old(self), SessionChange::Replaced(attempt, started && begun)),
    {
        if started && begun {
            self.attempt = Some(attempt);
            false
        } else {
            self.attempt = None;
            true
        }
    }

    /// Hands out the authorization, once.
    pub fn take_authorization(&mut self) -> (authorized: bool)
        ensures
            authorized == old(self).authorized,
            *final(self) == changed(*old(self), SessionChange::Taken),
    {
        let authorized = self.authorized;
        self.authorized = false;
        authorized
    }
}

/// What an observer is told of what went to the conversation.
pub fn observed(response: &Response, authenticated: bool) -> (event: Option<AuthTestEvent>)
    ensures
        event == match response {
            Response::Prompt { .. } => Some(AuthTestEvent::Prompt),
            Response::Notice { .. } => None,
            Response::Success => if authenticated {
                Some(AuthTestEvent::Success)
            } else {
                None
            },
            Response::Failure(_) => Some(AuthTestEvent::Failure),
        },
{
    match response {
        Response::Prompt { .. } => Some(AuthTestEvent::Prompt),
        Response::Notice { .. } => None,
        Response::Success => if authenticated {
            Some(AuthTestEvent::Success)
        } else {
            None
        },
        Response::Failure(_) => Some(AuthTestEvent::Failure),
    }
}

/// A session that is authorized saw a success on which the worker and the
/// conversation agree: nothing else authorizes it.
pub proof fn law_only_a_success_authorizes(
    session: LockSession,
    changes: Seq<SessionChange>,
    count: int,
)
    requires
        !session.authorized,
        0 <= count <= changes.len(),
        session_after(session, changes, count).authorized,
    ensures
        exists|index: int|
            0 <= index < count && #[trigger] changes[index] == SessionChange::Succeeded(true),
    decreases count,
{
    if count > 0 {
        let before = session_after(session, changes, count - 1);
        if before.authorized {
            law_only_a_success_authorizes(session, changes, count - 1);
        } else {
            assert(changes[count - 1] == SessionChange::Succeeded(true));
        }
    }
}

/// A session is never authorized before the compositor confirmed the lock, whatever
/// the worker and the conversation say until then.
pub proof fn law_only_a_confirmed_lock_is_authorized(
    attempt: u64,
    changes: Seq<SessionChange>,
    count: int,
)
    requires
        0 <= count <= changes.len(),
    ensures
        ({
            let session = session_after(
                LockSession {
                    attempt: Some(attempt),
                    prompt_id: None,
                    confirmed: false,
                    authorized: false,
                },
                changes,
                count,
            );
            session.authorized || session.prompt_id is Some ==> session.confirmed
        }),
    decreases count,
{
    if count > 0 {
        law_only_a_confirmed_lock_is_authorized(attempt, changes, count - 1);
    }
}

/// A session that the compositor confirmed stays confirmed.
pub proof fn law_a_confirmed_lock_stays_confirmed(
    session: LockSession,
    changes: Seq<SessionChange>,
    count: int,
)
    requires
        session.confirmed,
        0 <= count <= changes.len(),
    ensures
        session_after(session, changes, count).confirmed,
    decreases count,
{
    if count > 0 {
        law_a_confirmed_lock_stays_confirmed(session, changes, count - 1);
    }
}

/// What of the picture has to be drawn again.
#[derive(Clone, Copy, Debug, PartialEq, Eq, Structural)]
pub enum Redraw {
    Nothing,
    Overlay,
    Everything,
}

/// What a refresh comes to.
pub open spec fn refreshed(auth_changed: bool, wallpaper: Refresh) -> (Refresh, Redraw) {
    match wallpaper {
        Refresh::Failed => (Refresh::Failed, Redraw::Everything),
        Refresh::Frame => (Refresh::Frame, Redraw::Everything),
        Refresh::Unchanged => if auth_changed {
            (Refresh::Frame, Redraw::Overlay)
        } else {
            (Refresh::Unchanged, Redraw::Nothing)
        },
    }
}

/// Combines what the worker and the wallpaper changed.
pub fn refresh(auth_changed: bool, wallpaper: Refresh) -> (result: (Refresh, Redraw))
    ensures
        result == refreshed(auth_changed, wallpaper),
{
    match wallpaper {
        Refresh::Failed => (Refresh::Failed, Redraw::Everything),
        Refresh::Frame => (Refresh::Frame, Redraw::Everything),
        Refresh::Unchanged => if auth_changed {
            (Refresh::Frame, Redraw::Overlay)
        } else {
            (Refresh::Unchanged, Redraw::Nothing)
        },
    }
}

/// Only what the conversation takes, once the lock is confirmed, touches the prompt: a
/// new one takes the place of the old, a notice leaves it, and an end takes it away.
pub proof fn law_events_set_the_prompt(session: LockSession, event: AuthEvent, accepted: bool)
    ensures
        ({
            let after = changed(session, SessionChange::Event(event, accepted));
            let taken = accepted && session.confirmed;
            &&& !taken ==> after == session
            &&& (taken ==> (event matches AuthEvent::Prompt { id, .. } ==> after.prompt_id == Some(
                id,
            )))
            &&& taken && event is Notice ==> after == session
            &&& taken && (event is Success || event is Failure) ==> after.prompt_id is None
            &&& after.attempt == session.attempt
            &&& after.confirmed == session.confirmed
            &&& after.authorized == session.authorized
        }),
{
}

/// Every other change touches what it is about and nothing else: a success authorizes a
/// confirmed session, a confirmation confirms it, what is typed may use up the prompt,
/// starting over names the next attempt, giving up names none, a new worker names its
/// own, and the authorization is handed out once.
pub proof fn law_changes_touch_what_they_are_about(
    session: LockSession,
    input: LockInput,
    number: u64,
    flag: bool,
)
    ensures
        ({
            let after = changed(session, SessionChange::Succeeded(flag));
            &&& after.authorized <==> session.authorized || (flag && session.confirmed)
            &&& after.attempt == session.attempt && after.prompt_id == session.prompt_id
                && after.confirmed == session.confirmed
        }),
        ({
            let after = changed(session, SessionChange::Confirmed);
            &&& after.confirmed
            &&& after.attempt == session.attempt && after.prompt_id == session.prompt_id
                && after.authorized == session.authorized
        }),
        ({
            let after = changed(session, SessionChange::Typed(input, flag));
            &&& after.prompt_id != session.prompt_id ==> input is Submit && !flag
                && session.confirmed
            &&& input is Submit && !flag && session.confirmed ==> after.prompt_id is None
            &&& after.attempt == session.attempt && after.authorized == session.authorized
                && after.confirmed == session.confirmed
        }),
        ({
            let after = changed(session, SessionChange::Retried(number, flag));
            &&& after.attempt == Some(number) <==> session.attempt is Some && flag
            &&& after.attempt is None <==> session.attempt is None || !flag
            &&& after.prompt_id is None
            &&& after.authorized == session.authorized && after.confirmed == session.confirmed
        }),
        ({
            let after = changed(session, SessionChange::Cancelled);
            &&& after.attempt is None && after.prompt_id is None
            &&& after.authorized == session.authorized && after.confirmed == session.confirmed
        }),
        ({
            let after = changed(session, SessionChange::Replaced(number, flag));
            &&& flag ==> after.attempt == Some(number)
            &&& !flag ==> after.attempt is None
            &&& after.prompt_id == session.prompt_id && after.authorized == session.authorized
                && after.confirmed == session.confirmed
        }),
        ({
            let after = changed(session, SessionChange::Taken);
            &&& !after.authorized
            &&& after.attempt == session.attempt && after.prompt_id == session.prompt_id
                && after.confirmed == session.confirmed
        }),
{
}

/// A change of the wallpaper has everything drawn again, a change of the conversation alone
/// the overlay, and nothing is drawn where neither changed.
pub proof fn law_what_changed_is_drawn(auth_changed: bool, wallpaper: Refresh)
    ensures
        refreshed(auth_changed, wallpaper).1 == Redraw::Everything <==> wallpaper
            != Refresh::Unchanged,
        refreshed(auth_changed, wallpaper).1 == Redraw::Overlay <==> wallpaper == Refresh::Unchanged
            && auth_changed,
        refreshed(auth_changed, wallpaper).0 == Refresh::Failed <==> wallpaper == Refresh::Failed,
        refreshed(auth_changed, wallpaper).0 == Refresh::Unchanged <==> wallpaper
            == Refresh::Unchanged && !auth_changed,
{
}

} // verus!
