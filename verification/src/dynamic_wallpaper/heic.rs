//! Bounded parsing and decoding of macOS dynamic HEIC wallpapers.

use vstd::prelude::*;

verus! {

/// Why a dynamic wallpaper was refused.
#[derive(Debug)]
pub enum Error {
    Open(&'static str),
    SourceTooLarge,
    Container(String),
    Limit(&'static str),
    Metadata(String),
    MissingImage,
    UnsupportedColor(&'static str),
    Decode(String),
}

/// An [`Error`] with its text as a character sequence.
pub enum Fault {
    Open(Seq<char>),
    SourceTooLarge,
    Container(Seq<char>),
    Limit(Seq<char>),
    Metadata(Seq<char>),
    MissingImage,
    UnsupportedColor(Seq<char>),
    Decode(Seq<char>),
}

impl View for Error {
    type V = Fault;

    open spec fn view(&self) -> Fault {
        match self {
            Error::Open(text) => Fault::Open(text@),
            Error::SourceTooLarge => Fault::SourceTooLarge,
            Error::Container(text) => Fault::Container(text@),
            Error::Limit(text) => Fault::Limit(text@),
            Error::Metadata(text) => Fault::Metadata(text@),
            Error::MissingImage => Fault::MissingImage,
            Error::UnsupportedColor(text) => Fault::UnsupportedColor(text@),
            Error::Decode(text) => Fault::Decode(text@),
        }
    }
}

/// The model of a result whose success value is `value`.
pub open spec fn outcome<T, M>(result: Result<T, Error>, value: M) -> Result<M, Fault> {
    match result {
        Ok(_) => Ok(value),
        Err(error) => Err(error@),
    }
}

/// Resource ceilings applied before metadata or pixel allocations.
#[derive(Clone, Copy, Debug)]
pub struct Limits {
    pub max_source_bytes: u64,
    /// Container-item records: `ipma` entries, `iloc` records, `iref`
    /// destinations, and track references, summed over every box of each kind.
    pub max_container_items: u32,
    /// Property associations summed over every `ipma` box.
    pub max_container_associations: u32,
    /// Boxes the container preflight may visit.
    pub max_container_boxes: u32,
    /// Nesting depth of container boxes.
    pub max_container_depth: u32,
    /// Extents one `iloc` record may declare.
    pub max_item_extents: u32,
    /// Non-image items, each of which the decoder copies while parsing.
    pub max_metadata_items: usize,
    /// Top-level still images the schedule may address.
    pub max_top_level_images: usize,
    /// Metadata blocks attached to the primary image.
    pub max_metadata_blocks: usize,
    pub max_tiles: u32,
    pub max_width: u32,
    pub max_height: u32,
    pub max_pixels: u64,
    pub max_metadata_block_bytes: usize,
    pub max_metadata_bytes: usize,
    /// Bytes of one embedded ICC profile.
    pub max_color_profile_bytes: usize,
    /// Tags in one embedded ICC profile.
    pub max_color_profile_tags: usize,
    /// Decoded text one embedded ICC profile may materialize, summed over every
    /// tag.
    pub max_color_profile_text_bytes: usize,
    /// Localization records one embedded ICC profile may materialize, summed
    /// over every tag.
    pub max_color_profile_text_records: usize,
    pub max_xml_depth: usize,
    pub max_xml_events: usize,
    pub max_plist_bytes: usize,
    pub max_plist_objects: usize,
    pub max_expanded_plist_objects: usize,
    pub max_expanded_plist_bytes: usize,
    pub max_plist_depth: usize,
    pub max_schedule_points: usize,
    pub max_output_bytes: usize,
    pub max_libheif_memory_bytes: usize,
}

/// The ceilings used for every wallpaper.
pub open spec fn default_limits() -> Limits {
    Limits {
        max_source_bytes: 0x400_0000,
        max_container_items: 4_096,
        max_container_associations: 32_768,
        max_container_boxes: 16_384,
        max_container_depth: 16,
        max_item_extents: 32,
        max_metadata_items: 64,
        max_top_level_images: 64,
        max_metadata_blocks: 64,
        max_tiles: 4_096,
        max_width: 16_384,
        max_height: 16_384,
        max_pixels: 0x200_0000,
        max_metadata_block_bytes: 0x10_0000,
        max_metadata_bytes: 0x40_0000,
        max_color_profile_bytes: 0x10_0000,
        max_color_profile_tags: 64,
        max_color_profile_text_bytes: 0x40_0000,
        max_color_profile_text_records: 1_024,
        max_xml_depth: 32,
        max_xml_events: 4_096,
        max_plist_bytes: 0x8_0000,
        max_plist_objects: 1_024,
        max_expanded_plist_objects: 4_096,
        max_expanded_plist_bytes: 0x100_0000,
        max_plist_depth: 32,
        max_schedule_points: 256,
        max_output_bytes: 0x800_0000,
        max_libheif_memory_bytes: 0x1800_0000,
    }
}

impl Default for Limits {
    fn default() -> (limits: Self)
        ensures
            limits == default_limits(),
    {
        Limits {
            max_source_bytes: 64 * 1024 * 1024,
            max_container_items: 4_096,
            max_container_associations: 32_768,
            max_container_boxes: 16_384,
            max_container_depth: 16,
            max_item_extents: 32,
            max_metadata_items: 64,
            max_top_level_images: 64,
            max_metadata_blocks: 64,
            max_tiles: 4_096,
            max_width: 16_384,
            max_height: 16_384,
            max_pixels: 32 * 1024 * 1024,
            max_metadata_block_bytes: 1024 * 1024,
            max_metadata_bytes: 4 * 1024 * 1024,
            max_color_profile_bytes: 1024 * 1024,
            max_color_profile_tags: 64,
            max_color_profile_text_bytes: 4 * 1024 * 1024,
            max_color_profile_text_records: 1_024,
            max_xml_depth: 32,
            max_xml_events: 4_096,
            max_plist_bytes: 512 * 1024,
            max_plist_objects: 1_024,
            max_expanded_plist_objects: 4_096,
            max_expanded_plist_bytes: 16 * 1024 * 1024,
            max_plist_depth: 32,
            max_schedule_points: 256,
            max_output_bytes: 128 * 1024 * 1024,
            max_libheif_memory_bytes: 384 * 1024 * 1024,
        }
    }
}

/// One decoded, tightly packed, opaque RGBA8 image.
#[derive(Clone, Debug, Eq, PartialEq)]
pub struct RgbaFrame {
    pub width: u32,
    pub height: u32,
    pub pixels: Vec<u8>,
}

/// A frame by its contents.
#[verifier::ext_equal]
pub struct FrameModel {
    pub width: u32,
    pub height: u32,
    pub pixels: Seq<u8>,
}

impl View for RgbaFrame {
    type V = FrameModel;

    open spec fn view(&self) -> FrameModel {
        FrameModel { width: self.width, height: self.height, pixels: self.pixels@ }
    }
}

impl Error {
    /// What a fault says.
    pub open spec fn sentence(fault: Fault) -> Seq<char> {
        match fault {
            Fault::Open(text) => "could not open dynamic wallpaper: "@ + text,
            Fault::SourceTooLarge => "dynamic wallpaper exceeds the source size limit"@,
            Fault::Container(text) => "invalid or unsupported HEIC container: "@ + text,
            Fault::Limit(text) => "dynamic wallpaper exceeds a resource limit: "@ + text,
            Fault::Metadata(text) => "invalid dynamic wallpaper metadata: "@ + text,
            Fault::MissingImage => "dynamic wallpaper image reference is not present"@,
            Fault::UnsupportedColor(text) => "unsupported dynamic wallpaper color profile: "@
                + text,
            Fault::Decode(text) => "could not decode dynamic wallpaper image: "@ + text,
        }
    }

    /// The error as a sentence.
    pub fn message(&self) -> (sentence: String)
        ensures
            sentence@ == Error::sentence(self@),
    {
        let (prefix, text) = match self {
            Error::Open(text) => ("could not open dynamic wallpaper: ", *text),
            Error::SourceTooLarge => {
                return "dynamic wallpaper exceeds the source size limit".to_owned();
            },
            Error::Container(text) => ("invalid or unsupported HEIC container: ", text.as_str()),
            Error::Limit(text) => ("dynamic wallpaper exceeds a resource limit: ", *text),
            Error::Metadata(text) => ("invalid dynamic wallpaper metadata: ", text.as_str()),
            Error::MissingImage => {
                return "dynamic wallpaper image reference is not present".to_owned();
            },
            Error::UnsupportedColor(text) => (
                "unsupported dynamic wallpaper color profile: ",
                *text,
            ),
            Error::Decode(text) => ("could not decode dynamic wallpaper image: ", text.as_str()),
        };
        let mut sentence = prefix.to_owned();
        sentence.append(text);
        sentence
    }
}

/// What a fault says ends with its own text, and begins with words that no other kind of
/// fault begins with.
pub proof fn law_faults_say_what_they_are(text: Seq<char>, more: Seq<char>)
    ensures
        Error::sentence(Fault::Open(text + more)) == Error::sentence(Fault::Open(text)) + more,
        Error::sentence(Fault::Container(text + more)) == Error::sentence(Fault::Container(text))
            + more,
        Error::sentence(Fault::Limit(text + more)) == Error::sentence(Fault::Limit(text)) + more,
        Error::sentence(Fault::Metadata(text + more)) == Error::sentence(Fault::Metadata(text))
            + more,
        Error::sentence(Fault::UnsupportedColor(text + more)) == Error::sentence(
            Fault::UnsupportedColor(text),
        ) + more,
        Error::sentence(Fault::Decode(text + more)) == Error::sentence(Fault::Decode(text)) + more,
        "could not open dynamic wallpaper: "@.is_prefix_of(Error::sentence(Fault::Open(text))),
        "invalid or unsupported HEIC container: "@.is_prefix_of(
            Error::sentence(Fault::Container(text)),
        ),
        "dynamic wallpaper exceeds a resource limit: "@.is_prefix_of(
            Error::sentence(Fault::Limit(text)),
        ),
        "invalid dynamic wallpaper metadata: "@.is_prefix_of(
            Error::sentence(Fault::Metadata(text)),
        ),
        "unsupported dynamic wallpaper color profile: "@.is_prefix_of(
            Error::sentence(Fault::UnsupportedColor(text)),
        ),
        "could not decode dynamic wallpaper image: "@.is_prefix_of(
            Error::sentence(Fault::Decode(text)),
        ),
{
    lemma_said("could not open dynamic wallpaper: "@, text, more);
    lemma_said("invalid or unsupported HEIC container: "@, text, more);
    lemma_said("dynamic wallpaper exceeds a resource limit: "@, text, more);
    lemma_said("invalid dynamic wallpaper metadata: "@, text, more);
    lemma_said("unsupported dynamic wallpaper color profile: "@, text, more);
    lemma_said("could not decode dynamic wallpaper image: "@, text, more);
}

proof fn lemma_said(words: Seq<char>, text: Seq<char>, more: Seq<char>)
    ensures
        words + (text + more) == words + text + more,
        words.is_prefix_of(words + text),
{
    assert(words + (text + more) =~= words + text + more);
    assert((words + text).subrange(0, words.len() as int) =~= words);
}

/// The ceilings hang together: a decoded picture of as many pixels as may be fits the
/// output, a block of metadata fits all metadata and the whole of it the source, and a
/// property list fits a block.
pub proof fn law_ceilings_hang_together()
    ensures
        ({
            let limits = default_limits();
            let mebi = 1024 * 1024;
            &&& limits.max_source_bytes == 64 * mebi
            &&& limits.max_pixels == 32 * mebi
            &&& limits.max_output_bytes == 4 * limits.max_pixels
            &&& limits.max_libheif_memory_bytes == 3 * limits.max_output_bytes
            &&& limits.max_metadata_block_bytes == mebi
            &&& limits.max_metadata_bytes == 4 * limits.max_metadata_block_bytes
            &&& limits.max_color_profile_bytes == mebi
            &&& limits.max_color_profile_text_bytes == 4 * limits.max_color_profile_bytes
            &&& 2 * limits.max_plist_bytes == limits.max_metadata_block_bytes
            &&& limits.max_expanded_plist_bytes == 16 * mebi
            &&& limits.max_width == 16 * 1024 && limits.max_height == 16 * 1024
            &&& limits.max_container_items == 4 * 1024 && limits.max_tiles == 4 * 1024
            &&& limits.max_container_associations == 8 * limits.max_container_items
            &&& limits.max_container_boxes == 4 * limits.max_container_items
            &&& limits.max_container_depth == 16 && limits.max_item_extents == 32
            &&& limits.max_metadata_items == 64 && limits.max_top_level_images == 64
                && limits.max_metadata_blocks == 64 && limits.max_color_profile_tags == 64
            &&& limits.max_color_profile_text_records == 1024 && limits.max_plist_objects == 1024
            &&& limits.max_xml_events == 4 * 1024 && limits.max_expanded_plist_objects == 4 * 1024
            &&& limits.max_xml_depth == 32 && limits.max_plist_depth == 32
            &&& limits.max_schedule_points == 256
        }),
{
}

} // verus!
