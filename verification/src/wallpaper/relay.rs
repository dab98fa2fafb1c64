//! The stream by which the worker process hands over its frames.
//!
//! A frame is a tag, a header with width, height, and length, and tightly packed
//! RGBA bytes. The ceilings repeat the decoder's, so a corrupt worker cannot make
//! the greeter allocate a frame that the decoder would have refused.

use vstd::prelude::*;

use crate::dynamic_wallpaper::heic::{FrameModel, RgbaFrame};
use crate::wire::{le_u32, push_le_u32};

verus! {

/// The byte before a frame.
pub const FRAME_TAG: u8 = 0x46;

/// The byte that ends a stream whose worker failed.
pub const FAILED_TAG: u8 = 0x45;

/// The bytes of a frame's header.
pub const HEADER_BYTES: usize = 12;

/// The longest side of a frame.
pub const MAX_FRAME_DIMENSION: u32 = 16_384;

/// The memory one frame may take.
pub const MAX_RELAYED_BYTES: usize = 134_217_728;

/// The bytes of a frame of these dimensions, if it may be relayed.
pub open spec fn frame_bytes(width: u32, height: u32) -> Option<int> {
    if 0 < width <= MAX_FRAME_DIMENSION && 0 < height <= MAX_FRAME_DIMENSION && 4 * width * height
        <= MAX_RELAYED_BYTES {
        Some(4 * width * height)
    } else {
        None
    }
}

/// The exact byte length of a relayed frame, bounded before allocating.
pub fn expected_frame_bytes(width: u32, height: u32) -> (bytes: Option<usize>)
    ensures
        (match bytes {
            Some(bytes) => Some(bytes as int),
            None => None,
        }) == frame_bytes(width, height),
{
    if width == 0 || height == 0 {
        return None;
    }
    if width > MAX_FRAME_DIMENSION || height > MAX_FRAME_DIMENSION {
        return None;
    }
    assert(0 <= width * height <= 16_384 * 16_384) by (nonlinear_arith)
        requires
            0 <= width <= 16_384,
            0 <= height <= 16_384,
    ;
    let bytes: u64 = width as u64 * height as u64 * 4;
    assert(bytes == 4 * width * height) by (nonlinear_arith)
        requires
            bytes == width * height * 4,
    ;
    if bytes <= MAX_RELAYED_BYTES as u64 {
        Some(bytes as usize)
    } else {
        None
    }
}

/// What precedes a frame's pixels on the stream.
pub open spec fn announced(bytes: Seq<u8>, width: u32, height: u32, length: int) -> bool {
    &&& bytes.len() == 13
    &&& bytes[0] == FRAME_TAG
    &&& crate::wire::le(bytes, 1, 4) == width
    &&& crate::wire::le(bytes, 5, 4) == height
    &&& crate::wire::le(bytes, 9, 4) == length
}

/// The bytes that precede a frame's pixels. A frame whose length the header
/// cannot hold is not written.
pub fn announce(frame: &RgbaFrame) -> (bytes: Option<Vec<u8>>)
    ensures
        match bytes {
            Some(bytes) => announced(
                bytes@,
                frame.width,
                frame.height,
                frame.pixels@.len() as int,
            ),
            None => frame.pixels@.len() > u32::MAX,
        },
{
    let length: usize = frame.pixels.len();
    if length as u64 > u32::MAX as u64 {
        return None;
    }
    let mut bytes: Vec<u8> = Vec::with_capacity(13);
    bytes.push(FRAME_TAG);
    push_le_u32(&mut bytes, frame.width);
    let ghost first = bytes@;
    push_le_u32(&mut bytes, frame.height);
    let ghost second = bytes@;
    push_le_u32(&mut bytes, length as u32);
    proof {
        assert(second == bytes@.take(9));
        assert(first == second.take(5));
        assert(first.subrange(1, 5) =~= bytes@.subrange(1, 5));
        assert(second.subrange(5, 9) =~= bytes@.subrange(5, 9));
        crate::wire::lemma_le_depends_on_its_bytes(first, 1, bytes@, 1, 4);
        crate::wire::lemma_le_depends_on_its_bytes(second, 5, bytes@, 5, 4);
        assert(first.take(1)[0] == FRAME_TAG);
        assert(second.take(5)[0] == bytes@.take(9)[0]);
    }
    Some(bytes)
}

// ---------------------------------------------------------------------------
// Reading
// ---------------------------------------------------------------------------

/// What the reader of the stream waits for.
#[derive(Clone, Copy, Debug, PartialEq, Eq, Structural)]
pub enum Relay {
    Tag,
    Header,
    Pixels { width: u32, height: u32, length: usize },
}

impl Relay {
    /// How many bytes come next.
    pub open spec fn wants(self) -> int {
        match self {
            Relay::Tag => 1,
            Relay::Header => HEADER_BYTES as int,
            Relay::Pixels { length, .. } => length as int,
        }
    }

    /// How many bytes come next.
    pub fn wanted(self) -> (bytes: usize)
        ensures
            bytes == self.wants(),
    {
        match self {
            Relay::Tag => 1,
            Relay::Header => HEADER_BYTES,
            Relay::Pixels { length, .. } => length,
        }
    }
}

/// What follows from a part of the stream.
#[derive(Debug)]
pub enum RelayAction {
    /// More is to be read.
    Continue(Relay),
    /// A frame is complete; another may follow.
    Publish(RgbaFrame),
    /// The stream is over, and the consumer has to learn of a failure or not.
    Finish { failed: bool },
}

/// An action by its contents.
#[verifier::ext_equal]
pub enum RelayModel {
    Continue(Relay),
    Publish(FrameModel),
    Finish { failed: bool },
}

impl View for RelayAction {
    type V = RelayModel;

    open spec fn view(&self) -> RelayModel {
        match self {
            RelayAction::Continue(relay) => RelayModel::Continue(*relay),
            RelayAction::Publish(frame) => RelayModel::Publish(frame@),
            RelayAction::Finish { failed } => RelayModel::Finish { failed: *failed },
        }
    }
}

/// What follows from the next bytes of the stream, or from their absence. A
/// stream that breaks off or breaks the rules is a failure, unless the consumer
/// is going away; cancellation also wins over a frame that was already read.
pub open spec fn relayed(relay: Relay, bytes: Option<Seq<u8>>, stopping: bool) -> RelayModel {
    match bytes {
        None => RelayModel::Finish { failed: !stopping },
        Some(bytes) => match relay {
            Relay::Tag => if bytes[0] == FAILED_TAG {
                RelayModel::Finish { failed: true }
            } else if bytes[0] == FRAME_TAG {
                RelayModel::Continue(Relay::Header)
            } else {
                RelayModel::Finish { failed: !stopping }
            },
            Relay::Header => {
                let width = crate::wire::le(bytes, 0, 4) as u32;
                let height = crate::wire::le(bytes, 4, 4) as u32;
                let length = crate::wire::le(bytes, 8, 4);
                if frame_bytes(width, height) == Some(length as int) {
                    RelayModel::Continue(
                        Relay::Pixels { width, height, length: length as usize },
                    )
                } else {
                    RelayModel::Finish { failed: !stopping }
                }
            },
            Relay::Pixels { width, height, .. } => if stopping {
                RelayModel::Finish { failed: false }
            } else {
                RelayModel::Publish(FrameModel { width, height, pixels: bytes })
            },
        },
    }
}

/// Takes the next bytes of the stream, or their absence: the stream ended, or
/// there was no memory for them.
pub fn take_relayed(relay: Relay, bytes: Option<Vec<u8>>, stopping: bool) -> (action: RelayAction)
    requires
        bytes matches Some(bytes) ==> bytes@.len() == relay.wants(),
    ensures
        action@ == relayed(
            relay,
            match bytes {
                Some(bytes) => Some(bytes@),
                None => None,
            },
            stopping,
        ),
{
    let bytes = match bytes {
        Some(bytes) => bytes,
        None => return RelayAction::Finish { failed: !stopping },
    };
    match relay {
        Relay::Tag => {
            let tag: u8 = bytes[0];
            if tag == FAILED_TAG {
                return RelayAction::Finish { failed: true };
            }
            if tag == FRAME_TAG {
                return RelayAction::Continue(Relay::Header);
            }
            RelayAction::Finish { failed: !stopping }
        },
        Relay::Header => {
            let width: u32 = le_u32(bytes.as_slice(), 0);
            let height: u32 = le_u32(bytes.as_slice(), 4);
            let length: u32 = le_u32(bytes.as_slice(), 8);
            match expected_frame_bytes(width, height) {
                Some(expected) => if length as usize == expected {
                    RelayAction::Continue(Relay::Pixels { width, height, length: expected })
                } else {
                    RelayAction::Finish { failed: !stopping }
                },
                None => RelayAction::Finish { failed: !stopping },
            }
        },
        Relay::Pixels { width, height, .. } => if stopping {
            RelayAction::Finish { failed: false }
        } else {
            RelayAction::Publish(RgbaFrame { width, height, pixels: bytes })
        },
    }
}

/// Reading the stream gives back every frame that may be relayed, exactly as it
/// was written.
pub proof fn law_reading_gives_back_what_was_written(head: Seq<u8>, frame: FrameModel)
    requires
        announced(head, frame.width, frame.height, frame.pixels.len() as int),
        frame_bytes(frame.width, frame.height) == Some(frame.pixels.len() as int),
    ensures
        relayed(Relay::Tag, Some(head.take(1)), false) == RelayModel::Continue(Relay::Header),
        ({
            let next = Relay::Pixels {
                width: frame.width,
                height: frame.height,
                length: frame.pixels.len() as usize,
            };
            &&& relayed(Relay::Header, Some(head.skip(1)), false) == RelayModel::Continue(next)
            &&& next.wants() == frame.pixels.len()
            &&& relayed(next, Some(frame.pixels), false) == RelayModel::Publish(frame)
        }),
{
    assert(head.subrange(1, 5) =~= head.skip(1).subrange(0, 4));
    assert(head.subrange(5, 9) =~= head.skip(1).subrange(4, 8));
    assert(head.subrange(9, 13) =~= head.skip(1).subrange(8, 12));
    crate::wire::lemma_le_depends_on_its_bytes(head, 1, head.skip(1), 0, 4);
    crate::wire::lemma_le_depends_on_its_bytes(head, 5, head.skip(1), 4, 4);
    crate::wire::lemma_le_depends_on_its_bytes(head, 9, head.skip(1), 8, 4);
}

/// Whatever the worker sends, a frame that is published has exactly the bytes
/// its dimensions call for, and no more than the ceiling.
pub proof fn law_published_frames_are_complete_and_bounded(
    header: Seq<u8>,
    pixels: Seq<u8>,
    stopping: bool,
)
    requires
        relayed(Relay::Header, Some(header), stopping) matches RelayModel::Continue(next)
            && next.wants() == pixels.len(),
    ensures
        ({
            let next = relayed(Relay::Header, Some(header), stopping)->Continue_0;
            relayed(next, Some(pixels), stopping) matches RelayModel::Publish(frame) ==> {
                &&& frame.pixels.len() == 4 * frame.width * frame.height
                &&& frame.pixels.len() <= MAX_RELAYED_BYTES
            }
        }),
{
}

// ---------------------------------------------------------------------------
// Handing over
// ---------------------------------------------------------------------------

/// What the consumer has to look at.
#[derive(Debug)]
pub enum HeicUpdate {
    Frame(RgbaFrame),
    Failed,
}

/// An update by its contents.
pub enum HeicUpdateModel {
    Frame(FrameModel),
    Failed,
}

/// What the reader of the stream and the consumer share.
#[derive(Debug)]
pub struct HeicShared {
    pub pending: Option<HeicUpdate>,
    /// How often the consumer was told to look.
    pub sequence: u64,
    pub failed: bool,
}

/// What is shared, by its contents.
#[verifier::ext_equal]
pub struct HeicSharedModel {
    pub pending: Option<HeicUpdateModel>,
    pub sequence: u64,
    pub failed: bool,
}

/// An update, if there is one.
pub open spec fn update_of(update: Option<HeicUpdate>) -> Option<HeicUpdateModel> {
    match update {
        Some(HeicUpdate::Frame(frame)) => Some(HeicUpdateModel::Frame(frame@)),
        Some(HeicUpdate::Failed) => Some(HeicUpdateModel::Failed),
        None => None,
    }
}

impl View for HeicShared {
    type V = HeicSharedModel;

    open spec fn view(&self) -> HeicSharedModel {
        HeicSharedModel {
            pending: update_of(self.pending),
            sequence: self.sequence,
            failed: self.failed,
        }
    }
}

/// The shared state after a terminal failure.
pub open spec fn terminated(shared: HeicSharedModel) -> HeicSharedModel {
    if shared.failed {
        shared
    } else {
        HeicSharedModel {
            pending: Some(HeicUpdateModel::Failed),
            sequence: crate::dynamic_wallpaper::playback::following(shared.sequence),
            failed: true,
        }
    }
}

impl HeicShared {
    pub fn new() -> (shared: Self)
        ensures
            shared@ == (HeicSharedModel { pending: None, sequence: 0, failed: false }),
    {
        HeicShared { pending: None, sequence: 0, failed: false }
    }

    /// Hands a frame over, where there was memory for it and nothing failed. A
    /// frame that is not handed over leaves the one before it untouched.
    pub fn emit(&mut self, frame: Option<RgbaFrame>) -> (handed: bool)
        ensures
            match frame {
                Some(frame) => if old(self)@.failed {
                    !handed && final(self)@ == old(self)@
                } else {
                    handed && final(self)@ == (HeicSharedModel {
                        pending: Some(HeicUpdateModel::Frame(frame@)),
                        sequence: crate::dynamic_wallpaper::playback::following(
                            old(self)@.sequence,
                        ),
                        failed: false,
                    })
                },
                None => !handed && final(self)@ == old(self)@,
            },
    {
        match frame {
            Some(frame) => {
                if self.failed {
                    return false;
                }
                self.pending = Some(HeicUpdate::Frame(frame));
                self.sequence = self.sequence.wrapping_add(1);
                true
            },
            None => false,
        }
    }

    /// Publishes a terminal failure exactly once.
    pub fn fail(&mut self) -> (first: bool)
        ensures
            first == !old(self)@.failed,
            final(self)@ == terminated(old(self)@),
    {
        if self.failed {
            return false;
        }
        self.failed = true;
        self.pending = Some(HeicUpdate::Failed);
        self.sequence = self.sequence.wrapping_add(1);
        true
    }

    /// Takes what the consumer has not seen yet.
    pub fn take_latest(&mut self) -> (update: Option<HeicUpdate>)
        ensures
            update_of(update) == old(self)@.pending,
            final(self)@ == (HeicSharedModel { pending: None, ..old(self)@ }),
    {
        self.pending.take()
    }
}

/// A failure is published once and stays the last word.
pub proof fn law_relay_failures_are_final(shared: HeicSharedModel)
    ensures
        terminated(shared).failed,
        terminated(terminated(shared)) == terminated(shared),
{
}

/// A frame may be relayed where it has pixels, neither side is longer than 16384, and
/// its four bytes a pixel take at most 128 mebibytes; no other frame may.
pub proof fn law_relayed_frames_are_bounded(width: u32, height: u32)
    ensures
        frame_bytes(width, height) is Some <==> {
            &&& 1 <= width <= 16_384
            &&& 1 <= height <= 16_384
            &&& width * height <= 32 * 1024 * 1024
        },
        frame_bytes(width, height) matches Some(bytes) ==> bytes == 4 * (width * height),
{
    assert(4 * width * height == 4 * (width * height)) by (nonlinear_arith);
}

/// The reader starts a frame at its tag and asks for the header, and takes the header's
/// word for the pixels only where the length fits the dimensions. The tag of a failure
/// ends the stream, always as a failure.
pub proof fn law_the_stream_is_read_as_it_is_laid_out(
    relay: Relay,
    bytes: Seq<u8>,
    stopping: bool,
    width: u32,
    height: u32,
    length: usize,
)
    requires
        bytes.len() == relay.wants(),
    ensures
        relay == Relay::Tag ==> {
            &&& bytes[0] == 0x46 ==> relayed(relay, Some(bytes), stopping) == RelayModel::Continue(
                Relay::Header,
            )
            &&& bytes[0] == 0x45 ==> relayed(relay, Some(bytes), stopping) == (RelayModel::Finish {
                failed: true,
            })
            &&& bytes[0] != 0x45 && bytes[0] != 0x46 ==> relayed(relay, Some(bytes), stopping) == (
            RelayModel::Finish { failed: !stopping })
        },
        relay == Relay::Header ==> {
            &&& bytes.len() == 12
            &&& relayed(relay, Some(bytes), stopping) == RelayModel::Continue(
                (Relay::Pixels { width, height, length }),
            ) <==> {
                &&& crate::wire::le(bytes, 0, 4) == width
                &&& crate::wire::le(bytes, 4, 4) == height
                &&& crate::wire::le(bytes, 8, 4) == length
                &&& length == 4 * (width * height)
                &&& frame_bytes(width, height) is Some
            }
            &&& relayed(relay, Some(bytes), stopping) is Continue || relayed(
                relay,
                Some(bytes),
                stopping,
            ) == (RelayModel::Finish { failed: !stopping })
        },
        relay == (Relay::Pixels { width, height, length }) ==> relayed(
            relay,
            Some(bytes),
            stopping,
        ) == if stopping {
            RelayModel::Finish { failed: false }
        } else {
            RelayModel::Publish(FrameModel { width, height, pixels: bytes })
        },
        relayed(relay, None, stopping) == (RelayModel::Finish { failed: !stopping }),
{
    if relay == Relay::Header {
        reveal_with_fuel(crate::wire::le, 5);
        law_relayed_frames_are_bounded(width, height);
        law_relayed_frames_are_bounded(
            crate::wire::le(bytes, 0, 4) as u32,
            crate::wire::le(bytes, 4, 4) as u32,
        );
    }
}

/// The reader asks for one byte of tag, twelve of header, and as many of pixels as the
/// header said.
pub proof fn law_the_reader_asks_for_what_comes_next(width: u32, height: u32, length: usize)
    ensures
        Relay::Tag.wants() == 1,
        Relay::Header.wants() == 12,
        (Relay::Pixels { width, height, length }).wants() == length,
{
}

} // verus!
