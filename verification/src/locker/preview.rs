//! Fixed pictures of the locker, drawn without locking anything.

use vstd::prelude::*;

use super::identity::Identity;
use super::overlay::OverlayView;

verus! {

/// What a preview shows.
#[derive(Clone, Copy, Debug, PartialEq, Eq, Structural)]
pub enum Fixture {
    Securing,
    Prompt,
    Failure,
}

impl Default for Fixture {
    fn default() -> (fixture: Self)
        ensures
            fixture == Fixture::Prompt,
    {
        Fixture::Prompt
    }
}

/// What a preview shows of a conversation.
#[derive(Debug)]
pub struct FixtureConversation {
    pub input: String,
    pub prompt: String,
    pub notice: Option<String>,
    pub notice_is_error: bool,
    /// Whether the conversation is over without success.
    pub failed: bool,
    pub confirmed: bool,
}

impl Fixture {
    /// The conversation of a preview.
    pub fn conversation(self) -> (conversation: FixtureConversation)
        ensures
            conversation.confirmed == (self != Fixture::Securing),
            conversation.failed == (self == Fixture::Failure),
            conversation.notice_is_error == (self == Fixture::Failure),
            conversation.input@ == if self == Fixture::Prompt {
                "preview"@
            } else {
                Seq::empty()
            },
            conversation.prompt@ == if self == Fixture::Securing {
                Seq::empty()
            } else {
                "Password"@
            },
            self == Fixture::Failure ==> (conversation.notice matches Some(notice) && notice@
                == "Authentication failed"@),
            self != Fixture::Failure ==> conversation.notice is None,
    {
        match self {
            Fixture::Securing => FixtureConversation {
                input: String::new(),
                prompt: String::new(),
                notice: None,
                notice_is_error: false,
                failed: false,
                confirmed: false,
            },
            Fixture::Prompt => FixtureConversation {
                input: "preview".to_owned(),
                prompt: "Password".to_owned(),
                notice: None,
                notice_is_error: false,
                failed: false,
                confirmed: true,
            },
            Fixture::Failure => FixtureConversation {
                input: String::new(),
                prompt: "Password".to_owned(),
                notice: Some("Authentication failed".to_owned()),
                notice_is_error: true,
                failed: true,
                confirmed: true,
            },
        }
    }

    /// The overlay of a preview.
    pub fn view(self) -> (view: OverlayView)
        ensures
            view.initials@ == crate::text::uppercased(
                super::overlay::leading("Preview User"@),
            ),
            view.display_name@ == "Preview User"@,
            view.username@ == "preview"@,
            view.confirmed == (self != Fixture::Securing),
            view.typed == (if self == Fixture::Prompt {
                "preview"@.len()
            } else {
                0
            }),
            view.prompt@ == if self == Fixture::Securing {
                Seq::empty()
            } else {
                "Password"@
            },
            self == Fixture::Failure ==> (view.notice matches Some(notice) && notice@
                == "Authentication failed"@),
            self != Fixture::Failure ==> view.notice is None,
            view.notice_is_error == (self == Fixture::Failure),
    {
        let conversation = self.conversation();
        let identity = Identity {
            uid: 1000,
            username: "preview".to_owned(),
            display_name: "Preview User".to_owned(),
        };
        OverlayView::of(
            &identity,
            conversation.confirmed,
            conversation.prompt.as_str(),
            conversation.input.as_str(),
            match &conversation.notice {
                Some(notice) => Some(notice.as_str()),
                None => None,
            },
            conversation.notice_is_error,
        )
    }
}

} // verus!
