//! What the greeter and the locker show behind their windows, and what becomes
//! of it when playback advances or fails.

use vstd::prelude::*;

verus! {

/// What is playing.
#[derive(Clone, Copy, Debug, PartialEq, Eq, Structural)]
pub enum Playing {
    Nothing,
    Video,
    Dynamic,
}

/// What is on show.
#[derive(Clone, Copy, Debug, PartialEq, Eq, Structural)]
pub enum Shown {
    Nothing,
    Poster,
    Frame,
}

/// What changed on show.
#[derive(Clone, Copy, Debug, PartialEq, Eq, Structural)]
pub enum Refresh {
    Unchanged,
    Frame,
    Failed,
}

/// What playback has to say.
#[derive(Clone, Copy, Debug, PartialEq, Eq, Structural)]
pub enum Received {
    Frame,
    Failed,
}

/// The wallpaper as its consumer sees it.
#[derive(Clone, Copy, Debug, PartialEq, Eq, Structural)]
pub struct Presentation {
    pub playing: Playing,
    pub has_poster: bool,
    pub shown: Shown,
    /// Whether the renderer is still taking over a frame.
    pub allocation_pending: bool,
    /// Whether a frame of a dynamic wallpaper was ever on show.
    pub adopted: bool,
}

/// The poster, where there is one.
pub open spec fn background(has_poster: bool) -> Shown {
    if has_poster {
        Shown::Poster
    } else {
        Shown::Nothing
    }
}

impl Presentation {
    /// The wallpaper after playback stopped: what is on show stays, and where
    /// nothing is, the poster is shown.
    pub open spec fn stopped(self) -> Self {
        Presentation {
            playing: Playing::Nothing,
            shown: if self.shown == Shown::Nothing {
                background(self.has_poster)
            } else {
                self.shown
            },
            allocation_pending: false,
            ..self
        }
    }

    /// The wallpaper after a frame was put on show.
    pub open spec fn showing(self) -> Self {
        Presentation {
            shown: Shown::Frame,
            adopted: self.adopted || self.playing == Playing::Dynamic,
            ..self
        }
    }

    /// Whether a frame put on show now is the first of a dynamic wallpaper.
    pub open spec fn adopts(self) -> bool {
        self.playing == Playing::Dynamic && !self.adopted
    }

    /// The wallpaper at the start: the poster until the first frame comes.
    pub fn start(playing: Playing, has_poster: bool) -> (presentation: Self)
        ensures
            presentation == (Presentation {
                playing,
                has_poster,
                shown: background(has_poster),
                allocation_pending: false,
                adopted: false,
            }),
    {
        Presentation {
            playing,
            has_poster,
            shown: if has_poster {
                Shown::Poster
            } else {
                Shown::Nothing
            },
            allocation_pending: false,
            adopted: false,
        }
    }

    /// Stops playback.
    pub fn stop_playback(&mut self)
        ensures
            *final(self) == old(self).stopped(),
    {
        self.allocation_pending = false;
        if self.shown == Shown::Nothing && self.has_poster {
            self.shown = Shown::Poster;
        }
        self.playing = Playing::Nothing;
    }

    /// Notes the first frame of a dynamic wallpaper, and says whether this is
    /// it.
    pub fn note_heic_adoption(&mut self) -> (first: bool)
        ensures
            first == old(self).adopts(),
            *final(self) == (Presentation { adopted: old(self).adopted || first, ..*old(self) }),
    {
        if self.playing != Playing::Dynamic || self.adopted {
            return false;
        }
        self.adopted = true;
        true
    }

    /// Takes what playback has to say, for a renderer that draws at once. The
    /// second part says whether a dynamic wallpaper came on show for the first
    /// time.
    pub fn receive_latest(&mut self, update: Option<Received>) -> (refresh: (Refresh, bool))
        ensures
            match update {
                None => refresh == (Refresh::Unchanged, false) && *final(self) == *old(self),
                Some(Received::Frame) => refresh == (Refresh::Frame, old(self).adopts())
                    && *final(self) == old(self).showing(),
                Some(Received::Failed) => refresh == (Refresh::Failed, false) && *final(self)
                    == old(self).stopped(),
            },
    {
        match update {
            None => (Refresh::Unchanged, false),
            Some(Received::Frame) => {
                self.shown = Shown::Frame;
                let first = self.note_heic_adoption();
                (Refresh::Frame, first)
            },
            Some(Received::Failed) => {
                self.stop_playback();
                (Refresh::Failed, false)
            },
        }
    }

    /// Whether a renderer that takes frames over may be given another one.
    pub fn may_prepare(&self) -> (may: bool)
        ensures
            may == !self.allocation_pending,
    {
        !self.allocation_pending
    }

    /// Takes what playback has to say, for a renderer that takes frames over,
    /// and says whether it is to take over the frame.
    pub fn prepare_latest(&mut self, update: Option<Received>) -> (prepare: bool)
        ensures
            if old(self).allocation_pending || update is None {
                !prepare && *final(self) == *old(self)
            } else if update == Some(Received::Frame) {
                prepare && *final(self) == (Presentation { allocation_pending: true, ..*old(self) })
            } else {
                !prepare && *final(self) == old(self).stopped()
            },
    {
        if self.allocation_pending {
            return false;
        }
        match update {
            None => false,
            Some(Received::Frame) => {
                self.allocation_pending = true;
                true
            },
            Some(Received::Failed) => {
                self.stop_playback();
                false
            },
        }
    }

    /// Takes what became of a frame the renderer was to take over. The second
    /// part says whether a dynamic wallpaper came on show for the first time.
    pub fn finish_allocation(&mut self, allocated: bool, playback_failed: bool) -> (refresh: (
        Refresh,
        bool,
    ))
        ensures
            if !old(self).allocation_pending {
                refresh == (Refresh::Unchanged, false) && *final(self) == *old(self)
            } else if playback_failed || !allocated {
                refresh == (Refresh::Failed, false) && *final(self) == old(self).stopped()
            } else {
                refresh == (Refresh::Frame, old(self).adopts()) && *final(self) == (Presentation {
                    allocation_pending: false,
                    ..old(self).showing()
                })
            },
    {
        if !self.allocation_pending {
            return (Refresh::Unchanged, false);
        }
        self.allocation_pending = false;
        if playback_failed || !allocated {
            self.stop_playback();
            return (Refresh::Failed, false);
        }
        self.shown = Shown::Frame;
        let first = self.note_heic_adoption();
        (Refresh::Frame, first)
    }

    /// Whether anything is on show.
    pub fn has_frame(&self) -> (answer: bool)
        ensures
            answer == (self.shown != Shown::Nothing),
    {
        self.shown != Shown::Nothing
    }
}

/// A failure never takes away what is on show, and stopping twice is stopping
/// once.
pub proof fn law_failures_keep_the_background(presentation: Presentation)
    ensures
        presentation.shown != Shown::Nothing ==> presentation.stopped().shown
            == presentation.shown,
        presentation.has_poster ==> presentation.stopped().shown != Shown::Nothing,
        presentation.stopped().playing == Playing::Nothing,
        presentation.stopped().stopped() == presentation.stopped(),
{
}

/// Stopping playback puts the poster on show where nothing is and there is one, and
/// changes nothing else that is seen; a frame the renderer was taking over is given up.
pub proof fn law_the_poster_fills_an_empty_background(presentation: Presentation)
    ensures
        ({
            let after = presentation.stopped();
            &&& presentation.shown == Shown::Nothing && presentation.has_poster ==> after.shown
                == Shown::Poster
            &&& presentation.shown == Shown::Nothing && !presentation.has_poster ==> after.shown
                == Shown::Nothing
            &&& !after.allocation_pending
            &&& after.adopted == presentation.adopted
            &&& after.has_poster == presentation.has_poster
        }),
        background(true) == Shown::Poster,
        background(false) == Shown::Nothing,
{
}

/// The first frame of a dynamic wallpaper is noted once, and no frame of a video is: a
/// frame on show stays on show, and playing and the poster are as they were.
pub proof fn law_the_first_frame_is_noted_once(presentation: Presentation)
    ensures
        ({
            let after = presentation.showing();
            &&& after.shown == Shown::Frame
            &&& !after.adopts()
            &&& presentation.adopts() ==> after.adopted && !presentation.adopted
            &&& !presentation.adopts() ==> after.adopted == presentation.adopted
            &&& after.playing == presentation.playing
            &&& after.has_poster == presentation.has_poster
            &&& after.allocation_pending == presentation.allocation_pending
        }),
        presentation.playing != Playing::Dynamic ==> !presentation.adopts(),
        presentation.playing == Playing::Dynamic && !presentation.adopted ==> presentation.adopts(),
{
}

} // verus!
