//! Opening a dynamic wallpaper and reading its images.
//!
//! The decisions around the native decoder: what may reach it, what it may
//! allocate, and what of its answers is accepted. The decoder's answers come in
//! as plain values.

use vstd::prelude::*;

use super::container::{preflight, Budget};
use super::heic::{Error, Fault, Limits, RgbaFrame};
use super::icc::IccTransform;
use super::model::{
    Appearance, AppleProperty, HeifItemId, ImageReference, Metadata, ModelError, PropertyValue,
    Slot, SolarPoint, TimePoint, TopLevelImages,
};
use super::pixels::pack_rgba;
use super::property_list::{parse_property, PropertyModel};
use super::xmp::{parse_xmp_with, Found, Memory};
use crate::stable_file::OpenError;
use crate::text::same;

verus! {

// ---------------------------------------------------------------------------
// The source
// ---------------------------------------------------------------------------

/// Whether a source of this size may be read, given where it was asked for, how
/// opening it went, and what its size is.
pub open spec fn source_admitted(
    absolute: bool,
    opened: Result<(), OpenError>,
    measured: Option<u64>,
    rewound: bool,
    limits: Limits,
) -> Result<u64, Fault> {
    if !absolute {
        Err(Fault::Open("path is not absolute"@))
    } else {
        match opened {
            Err(error) => Err(Fault::Open(error.text())),
            Ok(()) => match measured {
                None => Err(Fault::Open("file metadata is unavailable"@)),
                Some(bytes) => if bytes > limits.max_source_bytes {
                    Err(Fault::SourceTooLarge)
                } else if !rewound {
                    Err(Fault::Open("file could not be rewound"@))
                } else {
                    Ok(bytes)
                },
            },
        }
    }
}

/// Decides whether a source may be read, and how many of its bytes.
pub fn admit_source(
    absolute: bool,
    opened: Result<(), OpenError>,
    measured: Option<u64>,
    rewound: bool,
    limits: &Limits,
) -> (result: Result<u64, Error>)
    ensures
        super::heic::outcome(result, result->Ok_0) == source_admitted(
            absolute,
            opened,
            measured,
            rewound,
            *limits,
        ),
{
    if !absolute {
        return Err(Error::Open("path is not absolute"));
    }
    if let Err(error) = opened {
        return Err(Error::Open(error.message()));
    }
    match measured {
        None => Err(Error::Open("file metadata is unavailable")),
        Some(bytes) => if bytes > limits.max_source_bytes {
            Err(Error::SourceTooLarge)
        } else if !rewound {
            Err(Error::Open("file could not be rewound"))
        } else {
            Ok(bytes)
        },
    }
}

/// The smaller of a number and the largest thirty-two bit word.
pub open spec fn word(value: int) -> int {
    if value > u32::MAX {
        u32::MAX as int
    } else {
        value
    }
}

fn to_u32(value: u64) -> (clamped: u32)
    ensures
        clamped == word(value as int),
{
    if value > u32::MAX as u64 {
        u32::MAX
    } else {
        value as u32
    }
}

/// The part of the limits that the container walk enforces.
pub open spec fn container_budget(limits: Limits) -> Budget {
    Budget {
        max_container_items: limits.max_container_items,
        max_container_associations: limits.max_container_associations,
        max_metadata_items: word(limits.max_metadata_items as int) as u32,
        max_metadata_bytes: limits.max_metadata_bytes as u64,
        max_container_boxes: limits.max_container_boxes,
        max_container_depth: limits.max_container_depth,
        max_item_extents: limits.max_item_extents,
    }
}

/// Bytes that passed the container walk.
///
/// The decoder parses a copy of exactly these bytes, so what it reads cannot
/// differ from what was checked.
#[derive(Debug)]
pub struct CheckedSource {
    bytes: Vec<u8>,
    limits: Limits,
}

impl CheckedSource {
    #[verifier::type_invariant]
    closed spec fn inspected(self) -> bool {
        super::container::inspected(self.bytes@, container_budget(self.limits)) is Ok
    }

    /// The limits the source was checked against.
    pub closed spec fn checked_against(&self) -> Limits {
        self.limits
    }

    /// The bytes of the source.
    pub closed spec fn contents(&self) -> Seq<u8> {
        self.bytes@
    }

    /// Walks a container before the decoder sees it.
    pub fn check(bytes: Vec<u8>, limits: &Limits) -> (result: Result<Self, Error>)
        ensures
            super::heic::outcome(result, ()) == match super::container::inspected(
                bytes@,
                container_budget(*limits),
            ) {
                Ok(_) => Ok(()),
                Err(fault) => Err(fault),
            },
            result matches Ok(source) ==> source.contents() == bytes@ && source.checked_against()
                == *limits,
    {
        let budget = Budget {
            max_container_items: limits.max_container_items,
            max_container_associations: limits.max_container_associations,
            max_metadata_items: to_u32(limits.max_metadata_items as u64),
            max_metadata_bytes: limits.max_metadata_bytes as u64,
            max_container_boxes: limits.max_container_boxes,
            max_container_depth: limits.max_container_depth,
            max_item_extents: limits.max_item_extents,
        };
        preflight(bytes.as_slice(), &budget)?;
        Ok(CheckedSource { bytes, limits: *limits })
    }

    /// The bytes the decoder may parse.
    pub fn bytes(&self) -> (bytes: &[u8])
        ensures
            bytes@ == self.contents(),
            super::container::inspected(bytes@, container_budget(self.checked_against())) is Ok,
    {
        proof {
            use_type_invariant(self);
        }
        self.bytes.as_slice()
    }
}

// ---------------------------------------------------------------------------
// The decoder's own limits
// ---------------------------------------------------------------------------

/// Ceilings handed to the native decoder.
#[derive(Clone, Copy, Debug, PartialEq, Eq, Structural)]
pub struct DecoderLimits {
    pub max_image_size_pixels: u64,
    pub max_number_of_tiles: u64,
    pub max_bayer_pattern_pixels: u32,
    pub max_items: u32,
    pub max_color_profile_size: u32,
    pub max_memory_block_size: u64,
    pub max_total_memory: u64,
}

/// The decoder's ceilings while it parses the container. It loads metadata
/// eagerly, so one allocation may not exceed one metadata block.
pub open spec fn parsing_limits(limits: Limits) -> DecoderLimits {
    DecoderLimits {
        max_image_size_pixels: limits.max_pixels,
        max_number_of_tiles: limits.max_tiles as u64,
        max_bayer_pattern_pixels: word(limits.max_pixels as int) as u32,
        max_items: limits.max_container_items,
        max_color_profile_size: word(limits.max_color_profile_bytes as int) as u32,
        max_memory_block_size: limits.max_metadata_block_bytes as u64,
        max_total_memory: limits.max_libheif_memory_bytes as u64,
    }
}

/// The decoder's ceilings while it decodes images.
pub open spec fn decoding_limits(limits: Limits) -> DecoderLimits {
    DecoderLimits {
        max_memory_block_size: limits.max_libheif_memory_bytes as u64,
        ..parsing_limits(limits)
    }
}

/// The ceilings of a decoder that parses a container, or that decodes images
/// once its metadata was read.
pub fn decoder_limits(limits: &Limits, decoding: bool) -> (ceilings: DecoderLimits)
    ensures
        ceilings == if decoding {
            decoding_limits(*limits)
        } else {
            parsing_limits(*limits)
        },
{
    DecoderLimits {
        max_image_size_pixels: limits.max_pixels,
        max_number_of_tiles: limits.max_tiles as u64,
        max_bayer_pattern_pixels: to_u32(limits.max_pixels),
        max_items: limits.max_container_items,
        max_color_profile_size: to_u32(limits.max_color_profile_bytes as u64),
        max_memory_block_size: if decoding {
            limits.max_libheif_memory_bytes as u64
        } else {
            limits.max_metadata_block_bytes as u64
        },
        max_total_memory: limits.max_libheif_memory_bytes as u64,
    }
}

// ---------------------------------------------------------------------------
// The images
// ---------------------------------------------------------------------------

/// The images a container may list.
pub open spec fn images_listed(count: nat, limits: Limits) -> Result<(), Fault> {
    if count == 0 {
        Err(Fault::Container("no top-level images"@))
    } else if count > limits.max_top_level_images {
        Err(Fault::Limit("top-level item count"@))
    } else {
        Ok(())
    }
}

/// Takes the identifiers of a container's top-level images.
pub fn list_images(item_ids: &[u32], limits: &Limits) -> (result: Result<TopLevelImages, Error>)
    ensures
        super::heic::outcome(result, ()) == images_listed(item_ids@.len(), *limits),
        result matches Ok(images) ==> images@ == item_ids@.map_values(
            |value: u32| HeifItemId { value },
        ),
{
    let count: usize = item_ids.len();
    if count == 0 {
        return Err(Error::Container("no top-level images".to_owned()));
    }
    if count > limits.max_top_level_images {
        return Err(Error::Limit("top-level item count"));
    }
    let mut items: Vec<HeifItemId> = Vec::with_capacity(count);
    let mut index: usize = 0;
    while index < count
        invariant
            count == item_ids@.len(),
            index <= count,
            items@ =~= item_ids@.take(index as int).map_values(|value: u32| HeifItemId { value }),
        decreases count - index,
    {
        items.push(HeifItemId::new(item_ids[index]));
        index += 1;
    }
    assert(item_ids@.take(count as int) =~= item_ids@);
    Ok(TopLevelImages::new(items))
}

/// Whether an image's dimensions may be decoded.
pub open spec fn dimensions_allowed(width: u32, height: u32, limits: Limits) -> bool {
    &&& 0 < width <= limits.max_width
    &&& 0 < height <= limits.max_height
    &&& width * height <= limits.max_pixels
}

/// Refuses empty images and images over the limits.
pub fn validate_dimensions(width: u32, height: u32, limits: &Limits) -> (result: Result<(), Error>)
    ensures
        super::heic::outcome(result, ()) == if dimensions_allowed(width, height, *limits) {
            Ok(())
        } else {
            Err(Fault::Limit("image dimensions"@))
        },
{
    let pixels: u64 = match (width as u64).checked_mul(height as u64) {
        Some(pixels) => pixels,
        None => return Err(Error::Limit("image dimensions")),
    };
    if width == 0 || height == 0 || width > limits.max_width || height > limits.max_height || pixels
        > limits.max_pixels {
        return Err(Error::Limit("image dimensions"));
    }
    Ok(())
}

/// The position of the first image with an identifier, from `from` on.
pub open spec fn position_from(images: Seq<HeifItemId>, id: u32, from: int) -> Option<int>
    decreases images.len() - from,
{
    if from < 0 || from >= images.len() {
        None
    } else if images[from].value == id {
        Some(from)
    } else {
        position_from(images, id, from + 1)
    }
}

/// The primary image, by its position among the top-level images.
pub open spec fn primary_located(
    images: Seq<HeifItemId>,
    id: u32,
    width: u32,
    height: u32,
    limits: Limits,
) -> Result<int, Fault> {
    if !dimensions_allowed(width, height, limits) {
        Err(Fault::Limit("image dimensions"@))
    } else {
        match position_from(images, id, 0) {
            Some(position) => Ok(position),
            None => Err(Fault::Container("primary image is not top-level"@)),
        }
    }
}

/// Finds the primary image among the top-level images.
pub fn locate_primary(
    images: &TopLevelImages,
    id: u32,
    width: u32,
    height: u32,
    limits: &Limits,
) -> (result: Result<ImageReference, Error>)
    ensures
        super::heic::outcome(result, result->Ok_0.position as int) == primary_located(
            images@,
            id,
            width,
            height,
            *limits,
        ),
        result matches Ok(primary) ==> primary.position < images@.len()
            && images@[primary.position as int].value == id,
{
    validate_dimensions(width, height, limits)?;
    let count: usize = images.len();
    let mut position: usize = 0;
    while position < count
        invariant
            count == images@.len(),
            position <= count,
            position_from(images@, id, 0) == position_from(images@, id, position as int),
            dimensions_allowed(width, height, *limits),
        decreases count - position,
    {
        let image = ImageReference::from_position(position);
        if let Some(item) = images.resolve(image) {
            if item.value() == id {
                return Ok(image);
            }
        }
        position += 1;
    }
    Err(Error::Container("primary image is not top-level".to_owned()))
}

// ---------------------------------------------------------------------------
// Metadata
// ---------------------------------------------------------------------------

/// Metadata by its contents.
#[verifier::ext_equal]
pub struct MetadataModel {
    pub time: Slot<(Seq<TimePoint>, Option<Appearance>)>,
    pub solar: Slot<(Seq<SolarPoint>, Option<Appearance>)>,
    pub appearance: Slot<Appearance>,
}

/// The contents of metadata.
pub open spec fn metadata_model(metadata: Metadata) -> MetadataModel {
    MetadataModel {
        time: match metadata.time_slot {
            Slot::Absent => Slot::Absent,
            Slot::Conflicting => Slot::Conflicting,
            Slot::Present(schedule) => Slot::Present((schedule.listed(), schedule.embedded())),
        },
        solar: match metadata.solar_slot {
            Slot::Absent => Slot::Absent,
            Slot::Conflicting => Slot::Conflicting,
            Slot::Present(schedule) => Slot::Present((schedule.listed(), schedule.embedded())),
        },
        appearance: metadata.appearance_slot,
    }
}

/// Metadata that declares nothing.
pub open spec fn no_metadata() -> MetadataModel {
    MetadataModel { time: Slot::Absent, solar: Slot::Absent, appearance: Slot::Absent }
}

/// The metadata after a property was declared once more.
pub open spec fn with_property(model: MetadataModel, property: PropertyModel) -> MetadataModel {
    match property {
        PropertyModel::Time(points, appearance) => MetadataModel {
            time: model.time.with((points, appearance)),
            ..model
        },
        PropertyModel::Solar(points, appearance) => MetadataModel {
            solar: model.solar.with((points, appearance)),
            ..model
        },
        PropertyModel::Appearance(appearance) => MetadataModel {
            appearance: model.appearance.with(appearance),
            ..model
        },
    }
}

/// Declares a property. A repeated property is no error; it only invalidates
/// itself.
pub fn insert_metadata_property(
    metadata: &mut Metadata,
    name: AppleProperty,
    property: PropertyValue,
) -> (result: Result<(), Error>)
    ensures
        *final(metadata) == super::model::declared(*old(metadata), name, property).0,
        super::heic::outcome(result, ()) == match super::model::declared(
            *old(metadata),
            name,
            property,
        ).1 {
            Ok(()) => Ok(()),
            Err(ModelError::DuplicateProperty(_)) => Ok(()),
            Err(error) => Err(Fault::Metadata(error.text())),
        },
{
    match metadata.insert(name, property) {
        Ok(()) => Ok(()),
        Err(ModelError::DuplicateProperty(_)) => Ok(()),
        Err(error) => Err(Error::Metadata(error.message().to_owned())),
    }
}

/// The metadata after the properties from `index` on were declared.
pub open spec fn properties_declared(
    found: Found,
    index: nat,
    model: MetadataModel,
    images: nat,
    limits: Limits,
) -> Result<MetadataModel, Fault>
    decreases found.len() - index,
{
    if index >= found.len() {
        Ok(model)
    } else {
        match super::property_list::property_parsed(
            found[index as int].0,
            found[index as int].1,
            images,
            limits,
        ) {
            Err(fault) => Err(fault),
            Ok(property) => properties_declared(
                found,
                index + 1,
                with_property(model, property),
                images,
                limits,
            ),
        }
    }
}

/// The metadata after one XMP block was read.
pub open spec fn block_read(
    bytes: Seq<u8>,
    model: MetadataModel,
    images: nat,
    limits: Limits,
) -> Result<MetadataModel, Fault> {
    match super::xmp::parsed(bytes, limits) {
        Err(fault) => Err(fault),
        Ok(found) => properties_declared(found, 0, model, images, limits),
    }
}

/// How many metadata blocks the decoder counted, an error counting as none.
pub open spec fn block_count(count: i32) -> nat {
    if count < 0 {
        0
    } else {
        count as nat
    }
}

/// How many metadata blocks there are to read, given the decoder's count and how
/// many identifiers it then wrote.
pub open spec fn blocks_counted(count: i32, written: usize, limits: Limits) -> Result<nat, Fault> {
    if block_count(count) > limits.max_metadata_blocks {
        Err(Fault::Limit("metadata block count"@))
    } else if written != block_count(count) {
        Err(Fault::Container("could not enumerate metadata blocks"@))
    } else {
        Ok(block_count(count))
    }
}

/// The number of block identifiers to ask the decoder for.
pub fn count_blocks(count: i32, limits: &Limits) -> (result: Result<usize, Error>)
    ensures
        super::heic::outcome(result, result->Ok_0 as nat) == if block_count(count)
            > limits.max_metadata_blocks {
            Err(Fault::Limit("metadata block count"@))
        } else {
            Ok(block_count(count))
        },
{
    let blocks: usize = if count < 0 {
        0
    } else {
        count as usize
    };
    if blocks > limits.max_metadata_blocks {
        return Err(Error::Limit("metadata block count"));
    }
    Ok(blocks)
}

/// The total after one more metadata block.
pub open spec fn block_charged(total: nat, size: nat, limits: Limits) -> Result<nat, Fault> {
    if size > limits.max_metadata_block_bytes {
        Err(Fault::Limit("metadata block size"@))
    } else if total + size > limits.max_metadata_bytes {
        Err(Fault::Limit("total metadata size"@))
    } else {
        Ok(total + size)
    }
}

/// Whether a block holds XMP.
pub open spec fn is_xmp(kind: Option<&str>, content_type: Option<&str>) -> bool {
    &&& kind matches Some(kind) && kind@ == "mime"@
    &&& content_type matches Some(content_type) && content_type@ == "application/rdf+xml"@
}

/// The metadata blocks of the primary image, read one after the other.
#[derive(Debug)]
pub struct MetadataReader {
    pub total: usize,
    pub metadata: Metadata,
}

impl MetadataReader {
    /// Starts with the blocks the decoder enumerated.
    pub fn new(count: i32, written: usize, limits: &Limits) -> (result: Result<Self, Error>)
        ensures
            super::heic::outcome(result, ()) == match blocks_counted(count, written, *limits) {
                Ok(_) => Ok(()),
                Err(fault) => Err(fault),
            },
            result matches Ok(reader) ==> reader.total == 0 && metadata_model(reader.metadata)
                == no_metadata(),
    {
        let blocks: usize = count_blocks(count, limits)?;
        if written != blocks {
            return Err(Error::Container("could not enumerate metadata blocks".to_owned()));
        }
        Ok(MetadataReader { total: 0, metadata: Metadata::default() })
    }

    /// Accounts for a block, and says whether its bytes are wanted.
    pub fn account(
        &mut self,
        size: usize,
        kind: Option<&str>,
        content_type: Option<&str>,
        limits: &Limits,
    ) -> (result: Result<bool, Error>)
        ensures
            super::heic::outcome(result, final(self).total as nat) == block_charged(
                old(self).total as nat,
                size as nat,
                *limits,
            ),
            result matches Ok(wanted) ==> wanted == is_xmp(kind, content_type),
            final(self).metadata == old(self).metadata,
    {
        if size > limits.max_metadata_block_bytes {
            return Err(Error::Limit("metadata block size"));
        }
        let total: usize = match self.total.checked_add(size) {
            Some(total) => total,
            None => return Err(Error::Limit("total metadata size")),
        };
        if total > limits.max_metadata_bytes {
            return Err(Error::Limit("total metadata size"));
        }
        self.total = total;
        let mime = match kind {
            Some(kind) => same(kind, "mime"),
            None => false,
        };
        let rdf = match content_type {
            Some(content_type) => same(content_type, "application/rdf+xml"),
            None => false,
        };
        Ok(mime && rdf)
    }

    /// Reads the properties of an XMP block. A block for which nothing is reserved
    /// cannot find too little memory.
    pub fn read(&mut self, bytes: &[u8], images: &TopLevelImages, limits: &Limits) -> (result:
        Result<(), Error>)
        ensures
            super::xmp::agrees(
                super::heic::outcome(result, metadata_model(final(self).metadata)),
                block_read(bytes@, metadata_model(old(self).metadata), images@.len(), *limits),
                super::xmp::requests(bytes@, *limits),
            ),
            super::xmp::requests(bytes@, *limits).len() == 0 ==> super::heic::outcome(
                result,
                metadata_model(final(self).metadata),
            ) == block_read(bytes@, metadata_model(old(self).metadata), images@.len(), *limits),
            final(self).total == old(self).total,
    {
        let mut memory = Memory::machine();
        self.read_with(bytes, images, limits, &mut memory)
    }

    /// Reads the properties of an XMP block where so many reservations are granted
    /// and no more.
    pub fn read_given(
        &mut self,
        bytes: &[u8],
        images: &TopLevelImages,
        limits: &Limits,
        reservations: usize,
    ) -> (result: Result<(), Error>)
        ensures
            super::heic::outcome(result, metadata_model(final(self).metadata))
                == super::xmp::granting(
                block_read(bytes@, metadata_model(old(self).metadata), images@.len(), *limits),
                super::xmp::requests(bytes@, *limits),
                reservations as nat,
            ),
            final(self).total == old(self).total,
    {
        let mut memory = Memory::given(reservations);
        self.read_with(bytes, images, limits, &mut memory)
    }

    /// Reads the properties of an XMP block, with room from `memory`.
    #[verifier::loop_isolation(false)]
    fn read_with(
        &mut self,
        bytes: &[u8],
        images: &TopLevelImages,
        limits: &Limits,
        memory: &mut Memory,
    ) -> (result: Result<(), Error>)
        ensures
            old(memory).served(
                *final(memory),
                super::heic::outcome(result, metadata_model(final(self).metadata)),
                block_read(bytes@, metadata_model(old(self).metadata), images@.len(), *limits),
                super::xmp::requests(bytes@, *limits),
            ),
            final(self).total == old(self).total,
    {
        let found = parse_xmp_with(bytes, limits, memory)?;
        let ghost models = super::xmp::found_model(found@);
        let mut index: usize = 0;
        while index < found.len()
            invariant
                index <= found@.len(),
                self.total == old(self).total,
                properties_declared(
                    models,
                    0,
                    metadata_model(old(self).metadata),
                    images@.len(),
                    *limits,
                ) == properties_declared(
                    models,
                    index as nat,
                    metadata_model(self.metadata),
                    images@.len(),
                    *limits,
                ),
            decreases found@.len() - index,
        {
            let (name, property) = parse_property(
                found[index].0,
                found[index].1.as_slice(),
                images,
                limits,
            )?;
            let ghost before = metadata_model(self.metadata);
            let ghost property_model = super::property_list::property_model(property);
            insert_metadata_property(&mut self.metadata, name, property)?;
            assert(metadata_model(self.metadata) =~= with_property(before, property_model));
            index += 1;
        }
        Ok(())
    }
}

// ---------------------------------------------------------------------------
// Color
// ---------------------------------------------------------------------------

/// The code point of the BT.709 primaries, which are those of sRGB.
pub const BT_709_PRIMARIES: u16 = 1;

/// The code point of the sRGB transfer function.
pub const SRGB_TRANSFER: u16 = 13;

/// The code point that leaves primaries or a transfer function unspecified.
pub const UNSPECIFIED: u16 = 2;

/// How a coded image says its numbers stand for colors, by the code points of
/// ITU-T H.273.
#[derive(Clone, Copy, Debug, PartialEq, Eq, Structural)]
pub struct Nclx {
    pub primaries: u16,
    pub transfer: u16,
}

/// Whether an encoding is sRGB, or close enough to say nothing else.
pub open spec fn nclx_accepted(primaries: u16, transfer: u16) -> Result<(), Fault> {
    if primaries != BT_709_PRIMARIES && primaries != UNSPECIFIED {
        Err(Fault::UnsupportedColor("non-sRGB color primaries"@))
    } else if transfer != SRGB_TRANSFER && transfer != UNSPECIFIED {
        Err(Fault::UnsupportedColor("non-sRGB transfer function"@))
    } else {
        Ok(())
    }
}

/// Refuses an encoding that is not sRGB.
pub fn validate_nclx_encoding(primaries: u16, transfer: u16) -> (result: Result<(), Error>)
    ensures
        super::heic::outcome(result, ()) == nclx_accepted(primaries, transfer),
{
    if primaries != BT_709_PRIMARIES && primaries != UNSPECIFIED {
        return Err(Error::UnsupportedColor("non-sRGB color primaries"));
    }
    if transfer != SRGB_TRANSFER && transfer != UNSPECIFIED {
        return Err(Error::UnsupportedColor("non-sRGB transfer function"));
    }
    Ok(())
}

/// Whether an encoding, if there is one, is accepted.
pub open spec fn encoding_accepted(nclx: Option<Nclx>) -> Result<(), Fault> {
    match nclx {
        Some(nclx) => nclx_accepted(nclx.primaries, nclx.transfer),
        None => Ok(()),
    }
}

/// Refuses an encoding that is there and not sRGB.
pub fn validate_nclx(nclx: Option<Nclx>) -> (result: Result<(), Error>)
    ensures
        super::heic::outcome(result, ()) == encoding_accepted(nclx),
{
    match nclx {
        Some(nclx) => validate_nclx_encoding(nclx.primaries, nclx.transfer),
        None => Ok(()),
    }
}

/// What the decoder says of an image before decoding it.
#[derive(Debug)]
pub struct ImageHandle {
    pub width: u32,
    pub height: u32,
    pub luma_bits: u8,
    pub chroma_bits: u8,
    /// The bytes of an embedded ICC profile.
    pub profile: Option<Vec<u8>>,
    pub nclx: Option<Nclx>,
}

/// The profile of an image whose color is accepted.
pub open spec fn color_accepted(
    luma_bits: u8,
    chroma_bits: u8,
    profile: Option<Seq<u8>>,
    nclx: Option<Nclx>,
    limits: Limits,
) -> Result<Option<Seq<u8>>, Fault> {
    if luma_bits > 8 || chroma_bits > 8 {
        Err(Fault::UnsupportedColor("HDR bit depth"@))
    } else {
        let judged = match profile {
            Some(bytes) => super::icc::profile_accepted(bytes, limits),
            None => Ok(()),
        };
        match judged {
            Err(fault) => Err(fault),
            Ok(()) => match encoding_accepted(nclx) {
                Err(fault) => Err(fault),
                Ok(()) => Ok(profile),
            },
        }
    }
}

/// The bytes of an image's profile.
pub open spec fn profile_bytes(handle: ImageHandle) -> Option<Seq<u8>> {
    match handle.profile {
        Some(bytes) => Some(bytes@),
        None => None,
    }
}

/// The profile of a transform, if there is one.
pub open spec fn transform_profile(color: Option<IccTransform>) -> Option<Seq<u8>> {
    match color {
        Some(transform) => Some(transform@),
        None => None,
    }
}

/// Validates the color of an image and returns the transform its embedded
/// profile needs, if it carries one.
pub fn validate_color(handle: ImageHandle, limits: &Limits) -> (result: Result<
    Option<IccTransform>,
    Error,
>)
    ensures
        super::heic::outcome(result, transform_profile(result->Ok_0)) == color_accepted(
            handle.luma_bits,
            handle.chroma_bits,
            profile_bytes(handle),
            handle.nclx,
            *limits,
        ),
{
    if handle.luma_bits > 8 || handle.chroma_bits > 8 {
        return Err(Error::UnsupportedColor("HDR bit depth"));
    }
    let color = match handle.profile {
        Some(profile) => {
            let transform = IccTransform::new(profile, limits)?;
            Some(transform)
        },
        None => None,
    };
    validate_nclx(handle.nclx)?;
    Ok(color)
}

// ---------------------------------------------------------------------------
// The document
// ---------------------------------------------------------------------------

/// An image whose dimensions and color were accepted, before it is decoded.
pub struct CheckedImage {
    width: u32,
    height: u32,
    color: Option<IccTransform>,
}

impl CheckedImage {
    #[verifier::type_invariant]
    closed spec fn sized(self) -> bool {
        self.width > 0 && self.height > 0
    }

    pub closed spec fn size(&self) -> (u32, u32) {
        (self.width, self.height)
    }

    pub closed spec fn profile(&self) -> Option<Seq<u8>> {
        transform_profile(self.color)
    }
}

/// One plane of interleaved samples.
#[derive(Debug)]
pub struct Plane<'a> {
    pub data: &'a [u8],
    pub stride: usize,
    pub width: u32,
    pub height: u32,
    pub bits_per_pixel: u8,
    pub storage_bits_per_pixel: u8,
}

/// What the decoder made of an image.
#[derive(Debug)]
pub struct DecodedImage<'a> {
    /// Whether the decoded image carries an ICC profile.
    pub has_profile: bool,
    pub nclx: Option<Nclx>,
    pub premultiplied_alpha: bool,
    pub interleaved: Option<Plane<'a>>,
}

/// Whether a decoded image is the one that was asked for, in the form that was
/// asked for.
pub open spec fn decoded_accepted(
    size: (u32, u32),
    profile: Option<Seq<u8>>,
    decoded: DecodedImage<'_>,
) -> Result<(), Fault> {
    if profile is None && decoded.has_profile {
        Err(Fault::UnsupportedColor("decoded ICC profile"@))
    } else {
        match encoding_accepted(decoded.nclx) {
            Err(fault) => Err(fault),
            Ok(()) => match decoded.interleaved {
                None => Err(Fault::Decode("decoder returned no interleaved plane"@)),
                Some(plane) => if (plane.width, plane.height) != size {
                    Err(Fault::Decode("decoded dimensions do not match the item"@))
                } else if plane.bits_per_pixel != 8 || plane.storage_bits_per_pixel != 32 {
                    Err(Fault::Decode("decoder returned an unexpected RGBA representation"@))
                } else {
                    Ok(())
                },
            },
        }
    }
}

/// The plane of a decoded image that is what was checked.
fn accept_decoded<'a>(image: &CheckedImage, decoded: DecodedImage<'a>) -> (result: Result<
    Plane<'a>,
    Error,
>)
    ensures
        super::heic::outcome(result, ()) == decoded_accepted(
            image.size(),
            image.profile(),
            decoded,
        ),
        result matches Ok(plane) ==> decoded.interleaved == Some(plane) && image.size() == (
            plane.width,
            plane.height,
        ),
{
    if image.color.is_none() && decoded.has_profile {
        return Err(Error::UnsupportedColor("decoded ICC profile"));
    }
    validate_nclx(decoded.nclx)?;
    let plane = match decoded.interleaved {
        Some(plane) => plane,
        None => return Err(Error::Decode("decoder returned no interleaved plane".to_owned())),
    };
    if plane.width != image.width || plane.height != image.height {
        return Err(Error::Decode("decoded dimensions do not match the item".to_owned()));
    }
    if plane.bits_per_pixel != 8 || plane.storage_bits_per_pixel != 32 {
        return Err(
            Error::Decode("decoder returned an unexpected RGBA representation".to_owned()),
        );
    }
    Ok(plane)
}

/// An opened wallpaper.
#[derive(Debug)]
pub struct Document {
    images: TopLevelImages,
    primary: ImageReference,
    metadata: Metadata,
    limits: Limits,
}

impl Document {
    #[verifier::type_invariant]
    closed spec fn has_primary(self) -> bool {
        self.primary.position < self.images@.len()
    }

    /// The identifiers of the top-level images.
    pub closed spec fn listed(&self) -> Seq<HeifItemId> {
        self.images@
    }

    /// The position of the primary image.
    pub closed spec fn first(&self) -> ImageReference {
        self.primary
    }

    /// What the wallpaper declares.
    pub closed spec fn declared(&self) -> MetadataModel {
        metadata_model(self.metadata)
    }

    /// The limits the wallpaper is held to.
    pub closed spec fn held_to(&self) -> Limits {
        self.limits
    }

    /// A wallpaper whose metadata was not read yet.
    pub fn new(images: TopLevelImages, id: u32, width: u32, height: u32, limits: Limits) -> (result:
        Result<Self, Error>)
        ensures
            super::heic::outcome(result, result->Ok_0.first().position as int) == primary_located(
                images@,
                id,
                width,
                height,
                limits,
            ),
            result matches Ok(document) ==> {
                &&& document.listed() == images@
                &&& document.declared() == no_metadata()
                &&& document.held_to() == limits
            },
    {
        let primary = locate_primary(&images, id, width, height, &limits)?;
        Ok(Document { images, primary, metadata: Metadata::default(), limits })
    }

    /// The wallpaper with the metadata of its primary image.
    pub fn with_metadata(self, reader: MetadataReader) -> (document: Self)
        ensures
            document.declared() == metadata_model(reader.metadata),
            document.listed() == self.listed(),
            document.first() == self.first(),
            document.held_to() == self.held_to(),
    {
        proof {
            use_type_invariant(&self);
        }
        Document {
            images: self.images,
            primary: self.primary,
            metadata: reader.metadata,
            limits: self.limits,
        }
    }

    pub fn images(&self) -> (images: &TopLevelImages)
        ensures
            images@ == self.listed(),
    {
        &self.images
    }

    /// The identifiers of the top-level images, in container order.
    pub fn item_ids(&self) -> (ids: Vec<u32>)
        ensures
            ids@ == self.listed().map_values(|item: HeifItemId| item.value),
    {
        let items = self.images.items();
        let count: usize = items.len();
        let mut ids: Vec<u32> = Vec::with_capacity(count);
        let mut index: usize = 0;
        while index < count
            invariant
                count == items@.len(),
                index <= count,
                ids@ =~= items@.take(index as int).map_values(|item: HeifItemId| item.value),
            decreases count - index,
        {
            ids.push(items[index].value());
            index += 1;
        }
        assert(items@.take(count as int) =~= items@);
        ids
    }

    pub fn primary_image(&self) -> (primary: ImageReference)
        ensures
            primary == self.first(),
            primary.position < self.listed().len(),
    {
        proof {
            use_type_invariant(self);
        }
        self.primary
    }

    pub fn metadata(&self) -> (metadata: &Metadata)
        ensures
            metadata_model(*metadata) == self.declared(),
    {
        &self.metadata
    }

    /// The identifier of an image to decode.
    pub fn item(&self, image: ImageReference) -> (result: Result<HeifItemId, Error>)
        ensures
            super::heic::outcome(result, result->Ok_0) == if image.position < self.listed().len() {
                Ok(self.listed()[image.position as int])
            } else {
                Err(Fault::MissingImage)
            },
    {
        match self.images.resolve(image) {
            Some(item) => Ok(item),
            None => Err(Error::MissingImage),
        }
    }

    /// Checks an image before it is decoded, so an unsupported one costs nothing
    /// beyond reading its profile.
    pub fn check(&self, handle: ImageHandle) -> (result: Result<CheckedImage, Error>)
        ensures
            super::heic::outcome(result, result->Ok_0.profile()) == if !dimensions_allowed(
                handle.width,
                handle.height,
                self.held_to(),
            ) {
                Err(Fault::Limit("image dimensions"@))
            } else {
                color_accepted(
                    handle.luma_bits,
                    handle.chroma_bits,
                    profile_bytes(handle),
                    handle.nclx,
                    self.held_to(),
                )
            },
            result matches Ok(image) ==> image.size() == (handle.width, handle.height),
    {
        let width: u32 = handle.width;
        let height: u32 = handle.height;
        validate_dimensions(width, height, &self.limits)?;
        let color = validate_color(handle, &self.limits)?;
        Ok(CheckedImage { width, height, color })
    }

    /// Takes a decoded image. A profile that appears only on the decoded image
    /// would tag pixels that were never validated.
    pub fn decode(&self, image: &CheckedImage, decoded: DecodedImage<'_>) -> (result: Result<
        RgbaFrame,
        Error,
    >)
        ensures
            match decoded_accepted(image.size(), image.profile(), decoded) {
                Err(fault) => result matches Err(error) && error@ == fault,
                Ok(()) => super::pixels::frame_packed(
                    decoded.interleaved->Some_0.data@,
                    decoded.interleaved->Some_0.stride as int,
                    image.size().0,
                    image.size().1,
                    self.held_to(),
                    decoded.premultiplied_alpha,
                    image.profile(),
                    result,
                ),
            },
    {
        proof {
            use_type_invariant(image);
        }
        let premultiplied_alpha = decoded.premultiplied_alpha;
        let plane = accept_decoded(image, decoded)?;
        pack_rgba(
            plane.data,
            plane.stride,
            plane.width,
            plane.height,
            &self.limits,
            premultiplied_alpha,
            image.color.as_ref(),
        )
    }

    /// Takes a decoded image where `buffer` is what there is room for the frame in,
    /// and `scratch` what there is to convert its colors in.
    pub fn decode_given(
        &self,
        image: &CheckedImage,
        decoded: DecodedImage<'_>,
        buffer: Option<Vec<u8>>,
        scratch: Option<Vec<u8>>,
    ) -> (result: Result<RgbaFrame, Error>)
        ensures
            super::heic::outcome(result, ()) == match decoded_accepted(
                image.size(),
                image.profile(),
                decoded,
            ) {
                Err(fault) => Err(fault),
                Ok(()) => super::pixels::packing_judged(
                    decoded.interleaved->Some_0.data@.len() as int,
                    decoded.interleaved->Some_0.stride as int,
                    image.size().0,
                    image.size().1,
                    self.held_to(),
                    image.profile() is Some,
                    buffer is Some,
                    scratch is Some,
                ),
            },
            result matches Ok(frame) ==> super::pixels::frame_of(
                decoded.interleaved->Some_0.data@,
                decoded.interleaved->Some_0.stride as int,
                image.size().0,
                image.size().1,
                decoded.premultiplied_alpha,
                image.profile(),
                frame,
            ),
    {
        proof {
            use_type_invariant(image);
        }
        let premultiplied_alpha = decoded.premultiplied_alpha;
        let plane = accept_decoded(image, decoded)?;
        super::pixels::pack_rgba_given(
            plane.data,
            plane.stride,
            plane.width,
            plane.height,
            &self.limits,
            premultiplied_alpha,
            image.color.as_ref(),
            buffer,
            scratch,
        )
    }
}

/// A decoded frame is opaque, has the dimensions of the checked image, and takes
/// no more memory than the limits allow.
pub proof fn law_frames_fit_the_limits(
    source: Seq<u8>,
    stride: int,
    width: u32,
    height: u32,
    limits: Limits,
    premultiplied: bool,
    profile: Option<Seq<u8>>,
    frame: RgbaFrame,
)
    requires
        super::pixels::frame_packed(
            source,
            stride,
            width,
            height,
            limits,
            premultiplied,
            profile,
            Ok(frame),
        ),
    ensures
        super::pixels::opaque(frame.pixels@),
        frame.width == width,
        frame.height == height,
        frame.pixels@.len() == 4 * width * height,
        frame.pixels@.len() <= limits.max_output_bytes,
{
}

/// Reading a block never revives a property that was declared more than once.
pub proof fn law_blocks_never_revive_a_conflict(
    found: Found,
    index: nat,
    model: MetadataModel,
    images: nat,
    limits: Limits,
)
    ensures
        properties_declared(found, index, model, images, limits) matches Ok(read) ==> {
            &&& model.time is Conflicting ==> read.time is Conflicting
            &&& model.solar is Conflicting ==> read.solar is Conflicting
            &&& model.appearance is Conflicting ==> read.appearance is Conflicting
        },
    decreases found.len() - index,
{
    if index < found.len() {
        if let Ok(property) = super::property_list::property_parsed(
            found[index as int].0,
            found[index as int].1,
            images,
            limits,
        ) {
            law_blocks_never_revive_a_conflict(
                found,
                index + 1,
                with_property(model, property),
                images,
                limits,
            );
        }
    }
}

/// A source is read, whole, where it was asked for by an absolute path, could be opened
/// and measured, is not too large, and stands at its start. Otherwise the first of these
/// that does not hold is named.
pub proof fn law_sources_are_admitted_whole(
    absolute: bool,
    opened: Result<(), OpenError>,
    measured: Option<u64>,
    rewound: bool,
    limits: Limits,
)
    ensures
        ({
            let admitted = source_admitted(absolute, opened, measured, rewound, limits);
            let reached = absolute && opened is Ok;
            let fits = measured matches Some(bytes) && bytes <= limits.max_source_bytes;
            &&& admitted is Ok <==> reached && fits && rewound
            &&& (admitted matches Ok(bytes) ==> measured == Some(bytes))
            &&& admitted == Err::<u64, Fault>(Fault::SourceTooLarge) <==> reached && measured
                is Some && !fits
            &&& !absolute ==> admitted == Err::<u64, Fault>(Fault::Open("path is not absolute"@))
            &&& (absolute ==> (opened matches Err(error) ==> admitted == Err::<u64, Fault>(
                Fault::Open(error.text()),
            )))
            &&& reached && measured is None ==> admitted == Err::<u64, Fault>(
                Fault::Open("file metadata is unavailable"@),
            )
            &&& reached && fits && !rewound ==> admitted == Err::<u64, Fault>(
                Fault::Open("file could not be rewound"@),
            )
        }),
{
}

/// The walk of a container is held to the limits as they are, one by one, and a number of
/// items that does not fit its word to the largest one that does.
pub proof fn law_containers_are_held_to_the_limits(limits: Limits)
    ensures
        ({
            let budget = container_budget(limits);
            &&& budget.max_container_items == limits.max_container_items
            &&& budget.max_container_associations == limits.max_container_associations
            &&& limits.max_metadata_items <= 0xffff_ffff ==> budget.max_metadata_items
                == limits.max_metadata_items
            &&& limits.max_metadata_items > 0xffff_ffff ==> budget.max_metadata_items == 0xffff_ffff
            &&& budget.max_metadata_bytes == limits.max_metadata_bytes
            &&& budget.max_container_boxes == limits.max_container_boxes
            &&& budget.max_container_depth == limits.max_container_depth
            &&& budget.max_item_extents == limits.max_item_extents
        }),
{
}

/// The decoder is held to the limits too. While it parses, one allocation may take no more
/// than one block of metadata; while it decodes, all the memory it may have. Nothing else
/// changes between the two.
pub proof fn law_decoders_are_held_to_the_limits(limits: Limits)
    ensures
        ({
            let parsing = parsing_limits(limits);
            let decoding = decoding_limits(limits);
            &&& parsing.max_memory_block_size == limits.max_metadata_block_bytes
            &&& decoding.max_memory_block_size == limits.max_libheif_memory_bytes
            &&& parsing == (DecoderLimits {
                max_memory_block_size: parsing.max_memory_block_size,
                ..decoding
            })
            &&& decoding.max_image_size_pixels == limits.max_pixels
            &&& decoding.max_number_of_tiles == limits.max_tiles
            &&& limits.max_pixels <= 0xffff_ffff ==> decoding.max_bayer_pattern_pixels
                == limits.max_pixels
            &&& limits.max_pixels > 0xffff_ffff ==> decoding.max_bayer_pattern_pixels == 0xffff_ffff
            &&& decoding.max_items == limits.max_container_items
            &&& limits.max_color_profile_bytes <= 0xffff_ffff ==> decoding.max_color_profile_size
                == limits.max_color_profile_bytes
            &&& limits.max_color_profile_bytes > 0xffff_ffff ==> decoding.max_color_profile_size
                == 0xffff_ffff
            &&& decoding.max_total_memory == limits.max_libheif_memory_bytes
        }),
{
}

/// A container lists at least one image and no more than it may.
pub proof fn law_containers_list_their_images(count: nat, limits: Limits)
    ensures
        images_listed(count, limits) is Ok <==> 1 <= count <= limits.max_top_level_images,
        images_listed(0, limits) == Err::<(), Fault>(Fault::Container("no top-level images"@)),
        count > limits.max_top_level_images && count > 0 ==> images_listed(count, limits) == Err::<
            (),
            Fault,
        >(Fault::Limit("top-level item count"@)),
{
}

/// The primary image is the first of the top-level images with its identifier; there has
/// to be one, and its size has to be allowed: neither side empty or too long, nor both
/// together too many pixels.
pub proof fn law_the_primary_image_is_the_first_of_its_name(
    images: Seq<HeifItemId>,
    id: u32,
    width: u32,
    height: u32,
    limits: Limits,
    position: int,
)
    ensures
        ({
            let located = primary_located(images, id, width, height, limits);
            let allowed = 1 <= width <= limits.max_width && 1 <= height <= limits.max_height && width
                * height <= limits.max_pixels;
            &&& located == Ok::<int, Fault>(position) <==> {
                &&& allowed
                &&& 0 <= position < images.len()
                &&& images[position].value == id
                &&& forall|earlier: int|
                    0 <= earlier < position ==> (#[trigger] images[earlier]).value != id
            }
            &&& !allowed ==> located == Err::<int, Fault>(Fault::Limit("image dimensions"@))
            &&& allowed && located is Err ==> located == Err::<int, Fault>(
                Fault::Container("primary image is not top-level"@),
            ) && forall|any: int|
                0 <= any < images.len() ==> (#[trigger] images[any]).value != id
        }),
{
    lemma_position(images, id, 0);
    if position_from(images, id, 0) is Some {
        let found = position_from(images, id, 0)->0;
        if 0 <= position < images.len() && images[position].value == id && position != found {
            if position > found {
                assert(images[found].value == id);
            }
        }
    }
}

proof fn lemma_position(images: Seq<HeifItemId>, id: u32, from: int)
    requires
        0 <= from <= images.len(),
    ensures
        position_from(images, id, from) matches Some(found) ==> {
            &&& from <= found < images.len()
            &&& images[found].value == id
            &&& forall|earlier: int|
                from <= earlier < found ==> (#[trigger] images[earlier]).value != id
        },
        position_from(images, id, from) is None ==> forall|any: int|
            from <= any < images.len() ==> (#[trigger] images[any]).value != id,
    decreases images.len() - from,
{
    if from < images.len() && images[from].value != id {
        lemma_position(images, id, from + 1);
    }
}

/// Whether every property found was read as the model at its place.
pub open spec fn all_read(
    found: Found,
    models: Seq<PropertyModel>,
    images: nat,
    limits: Limits,
) -> bool {
    &&& models.len() == found.len()
    &&& forall|index: int|
        0 <= index < found.len() ==> super::property_list::property_parsed(
            (#[trigger] found[index]).0,
            found[index].1,
            images,
            limits,
        ) == Ok::<PropertyModel, Fault>(models[index])
}

/// What a wallpaper declares of one kind: nothing where no property of that kind was
/// found, the property where one was, and a conflict where two were. The kinds do not
/// touch each other.
pub proof fn law_metadata_holds_what_was_found(
    found: Found,
    models: Seq<PropertyModel>,
    images: nat,
    limits: Limits,
    first: int,
    second: int,
)
    requires
        all_read(found, models, images, limits),
    ensures
        ({
            let declared = properties_declared(found, 0, no_metadata(), images, limits);
            let alone = 0 <= first < models.len() && forall|other: int|
                0 <= other < models.len() && other != first ==> !same_kind(
                    #[trigger] models[other],
                    models[first],
                );
            let both = 0 <= first < second < models.len() && same_kind(
                models[first],
                models[second],
            );
            &&& declared is Ok
            &&& alone ==> holds_alone(declared->Ok_0, models[first])
            &&& both ==> holds_conflict(declared->Ok_0, models[first])
            &&& (forall|index: int| 0 <= index < models.len() ==> !(#[trigger] models[index] is Time))
                ==> declared->Ok_0.time is Absent
            &&& (forall|index: int| 0 <= index < models.len() ==> !(#[trigger] models[index] is Solar))
                ==> declared->Ok_0.solar is Absent
            &&& (forall|index: int|
                0 <= index < models.len() ==> !(#[trigger] models[index] is Appearance))
                ==> declared->Ok_0.appearance is Absent
        }),
{
    lemma_declared(found, models, 0, no_metadata(), images, limits);
    let folded = folded_models(models, 0, no_metadata());
    if 0 <= first < models.len() {
        lemma_folded(models, 0, no_metadata(), first, second);
    }
    if forall|index: int| 0 <= index < models.len() ==> !(#[trigger] models[index] is Time) {
        lemma_kind_absent(models, 0, no_metadata());
    }
    if forall|index: int| 0 <= index < models.len() ==> !(#[trigger] models[index] is Solar) {
        lemma_kind_absent(models, 0, no_metadata());
    }
    if forall|index: int| 0 <= index < models.len() ==> !(#[trigger] models[index] is Appearance) {
        lemma_kind_absent(models, 0, no_metadata());
    }
}

/// Whether two properties are of one kind.
pub open spec fn same_kind(left: PropertyModel, right: PropertyModel) -> bool {
    ||| left is Time && right is Time
    ||| left is Solar && right is Solar
    ||| left is Appearance && right is Appearance
}

/// Whether metadata declares a property and no other of its kind.
pub open spec fn holds_alone(model: MetadataModel, property: PropertyModel) -> bool {
    match property {
        PropertyModel::Time(points, appearance) => model.time == Slot::Present((points, appearance)),
        PropertyModel::Solar(points, appearance) => model.solar == Slot::Present(
            (points, appearance),
        ),
        PropertyModel::Appearance(appearance) => model.appearance == Slot::Present(appearance),
    }
}

/// Whether metadata declares nothing valid of a property's kind.
pub open spec fn holds_conflict(model: MetadataModel, property: PropertyModel) -> bool {
    match property {
        PropertyModel::Time(_, _) => model.time is Conflicting,
        PropertyModel::Solar(_, _) => model.solar is Conflicting,
        PropertyModel::Appearance(_) => model.appearance is Conflicting,
    }
}

spec fn holds_none(model: MetadataModel, property: PropertyModel) -> bool {
    match property {
        PropertyModel::Time(_, _) => model.time is Absent,
        PropertyModel::Solar(_, _) => model.solar is Absent,
        PropertyModel::Appearance(_) => model.appearance is Absent,
    }
}

spec fn folded_models(models: Seq<PropertyModel>, index: nat, model: MetadataModel) -> MetadataModel
    decreases models.len() - index,
{
    if index >= models.len() {
        model
    } else {
        folded_models(models, index + 1, with_property(model, models[index as int]))
    }
}

proof fn lemma_declared(
    found: Found,
    models: Seq<PropertyModel>,
    index: nat,
    model: MetadataModel,
    images: nat,
    limits: Limits,
)
    requires
        all_read(found, models, images, limits),
        index <= found.len(),
    ensures
        properties_declared(found, index, model, images, limits) == Ok::<MetadataModel, Fault>(
            folded_models(models, index, model),
        ),
    decreases found.len() - index,
{
    if index < found.len() {
        assert(found[index as int] == found[index as int]);
        lemma_declared(
            found,
            models,
            index + 1,
            with_property(model, models[index as int]),
            images,
            limits,
        );
    }
}

proof fn lemma_folded(
    models: Seq<PropertyModel>,
    index: nat,
    model: MetadataModel,
    first: int,
    second: int,
)
    requires
        index <= models.len(),
        0 <= first < models.len(),
    ensures
        ({
            let after = folded_models(models, index, model);
            let rest_alone = forall|other: int|
                index <= other < models.len() && other != first ==> !same_kind(
                    #[trigger] models[other],
                    models[first],
                );
            let kind = models[first];
            &&& first >= index && rest_alone && holds_none(model, kind) ==> holds_alone(after, kind)
            &&& first < index && rest_alone && holds_alone(model, kind) ==> holds_alone(after, kind)
            &&& holds_conflict(model, kind) ==> holds_conflict(after, kind)
            &&& !holds_none(model, kind) && index <= second < models.len() && same_kind(
                kind,
                models[second],
            ) ==> holds_conflict(after, kind)
            &&& index <= first < second < models.len() && same_kind(kind, models[second])
                ==> holds_conflict(after, kind)
        }),
    decreases models.len() - index,
{
    if index < models.len() {
        assert(models[index as int] == models[index as int]);
        lemma_folded(models, index + 1, with_property(model, models[index as int]), first, second);
    }
}

proof fn lemma_kind_absent(models: Seq<PropertyModel>, index: nat, model: MetadataModel)
    requires
        index <= models.len(),
    ensures
        ({
            let after = folded_models(models, index, model);
            &&& (forall|at: int| index <= at < models.len() ==> !(#[trigger] models[at] is Time))
                ==> after.time == model.time
            &&& (forall|at: int| index <= at < models.len() ==> !(#[trigger] models[at] is Solar))
                ==> after.solar == model.solar
            &&& (forall|at: int|
                index <= at < models.len() ==> !(#[trigger] models[at] is Appearance))
                ==> after.appearance == model.appearance
        }),
    decreases models.len() - index,
{
    if index < models.len() {
        assert(models[index as int] == models[index as int]);
        lemma_kind_absent(models, index + 1, with_property(model, models[index as int]));
    }
}

/// The first property that cannot be read is the fault of its block, whatever follows it.
pub proof fn law_the_first_bad_property_is_named(
    found: Found,
    at: nat,
    model: MetadataModel,
    images: nat,
    limits: Limits,
    fault: Fault,
)
    requires
        at < found.len(),
        forall|index: int|
            0 <= index < at ==> super::property_list::property_parsed(
                (#[trigger] found[index]).0,
                found[index].1,
                images,
                limits,
            ) is Ok,
        super::property_list::property_parsed(
            found[at as int].0,
            found[at as int].1,
            images,
            limits,
        ) == Err::<PropertyModel, Fault>(fault),
    ensures
        properties_declared(found, 0, model, images, limits) == Err::<MetadataModel, Fault>(fault),
{
    lemma_first_bad(found, 0, at, model, images, limits, fault);
}

proof fn lemma_first_bad(
    found: Found,
    index: nat,
    at: nat,
    model: MetadataModel,
    images: nat,
    limits: Limits,
    fault: Fault,
)
    requires
        index <= at < found.len(),
        forall|index: int|
            0 <= index < at ==> super::property_list::property_parsed(
                (#[trigger] found[index]).0,
                found[index].1,
                images,
                limits,
            ) is Ok,
        super::property_list::property_parsed(
            found[at as int].0,
            found[at as int].1,
            images,
            limits,
        ) == Err::<PropertyModel, Fault>(fault),
    ensures
        properties_declared(found, index, model, images, limits) == Err::<MetadataModel, Fault>(
            fault,
        ),
    decreases at - index,
{
    if index < at {
        let parsed = super::property_list::property_parsed(
            found[index as int].0,
            found[index as int].1,
            images,
            limits,
        );
        lemma_first_bad(
            found,
            index + 1,
            at,
            with_property(model, parsed->Ok_0),
            images,
            limits,
            fault,
        );
    }
}

/// Blocks of metadata are read where all that were counted could be named, none of them is
/// too large, and all together are not; a count that could not be had is none.
pub proof fn law_blocks_are_counted_and_charged(
    count: i32,
    written: usize,
    total: nat,
    size: nat,
    limits: Limits,
)
    ensures
        blocks_counted(count, written, limits) is Ok <==> {
            &&& written <= limits.max_metadata_blocks
            &&& written == count || (count < 0 && written == 0)
        },
        blocks_counted(count, written, limits) matches Ok(blocks) ==> blocks == written,
        count > limits.max_metadata_blocks && count >= 0 ==> blocks_counted(count, written, limits)
            == Err::<nat, Fault>(Fault::Limit("metadata block count"@)),
        block_charged(total, size, limits) is Ok <==> size <= limits.max_metadata_block_bytes
            && total + size <= limits.max_metadata_bytes,
        block_charged(total, size, limits) matches Ok(sum) ==> sum == total + size,
        size > limits.max_metadata_block_bytes ==> block_charged(total, size, limits) == Err::<
            nat,
            Fault,
        >(Fault::Limit("metadata block size"@)),
{
}

/// An encoding is accepted where its primaries are those of BT.709 and its transfer that
/// of sRGB, each of them also where it is not specified.
pub proof fn law_encodings_are_srgb(primaries: u16, transfer: u16)
    ensures
        nclx_accepted(primaries, transfer) is Ok <==> (primaries == 1 || primaries == 2) && (
        transfer == 13 || transfer == 2),
        primaries != 1 && primaries != 2 ==> nclx_accepted(primaries, transfer) == Err::<(), Fault>(
            Fault::UnsupportedColor("non-sRGB color primaries"@),
        ),
        encoding_accepted(None) is Ok,
        encoding_accepted(Some(Nclx { primaries, transfer })) == nclx_accepted(primaries, transfer),
{
}

/// The color of an image is accepted where neither of its depths exceeds eight bits, its
/// profile can be used, and its encoding is sRGB; its profile is then kept as it is.
pub proof fn law_colors_are_accepted_part_by_part(
    luma_bits: u8,
    chroma_bits: u8,
    profile: Option<Seq<u8>>,
    nclx: Option<Nclx>,
    limits: Limits,
)
    ensures
        ({
            let accepted = color_accepted(luma_bits, chroma_bits, profile, nclx, limits);
            let usable = profile matches Some(bytes) ==> super::icc::profile_accepted(
                bytes,
                limits,
            ) is Ok;
            &&& accepted is Ok <==> luma_bits <= 8 && chroma_bits <= 8 && usable
                && encoding_accepted(nclx) is Ok
            &&& (accepted matches Ok(kept) ==> kept == profile)
            &&& luma_bits > 8 || chroma_bits > 8 ==> accepted == Err::<Option<Seq<u8>>, Fault>(
                Fault::UnsupportedColor("HDR bit depth"@),
            )
        }),
{
}

/// A decoded image is accepted where it is the one that was asked for: of its size, with
/// eight bits a sample in four bytes a pixel, in sRGB, and with a profile only where the
/// image had one.
pub proof fn law_decoded_images_are_what_was_asked_for(
    size: (u32, u32),
    profile: Option<Seq<u8>>,
    decoded: DecodedImage<'_>,
)
    ensures
        decoded_accepted(size, profile, decoded) is Ok <==> {
            &&& decoded.has_profile ==> profile is Some
            &&& encoding_accepted(decoded.nclx) is Ok
            &&& decoded.interleaved matches Some(plane) && {
                &&& plane.width == size.0
                &&& plane.height == size.1
                &&& plane.bits_per_pixel == 8
                &&& plane.storage_bits_per_pixel == 32
            }
        },
{
}

/// A block holds XMP where its kind and its content type both say so; what it declares is
/// added to what was declared before.
pub proof fn law_xmp_blocks_declare_properties(
    bytes: Seq<u8>,
    found: Found,
    model: MetadataModel,
    images: nat,
    limits: Limits,
    kind: &str,
    content_type: &str,
)
    ensures
        is_xmp(Some(kind), Some(content_type)) <==> kind@ == "mime"@ && content_type@
            == "application/rdf+xml"@,
        !is_xmp(None, Some(content_type)),
        !is_xmp(Some(kind), None),
        super::xmp::parsed(bytes, limits) == Ok::<Found, Fault>(found) ==> block_read(
            bytes,
            model,
            images,
            limits,
        ) == properties_declared(found, 0, model, images, limits),
        super::xmp::parsed(bytes, limits) matches Err(fault) ==> block_read(
            bytes,
            model,
            images,
            limits,
        ) == Err::<MetadataModel, Fault>(fault),
        super::xmp::parsed(bytes, limits) == Ok::<Found, Fault>(Seq::empty()) ==> block_read(
            bytes,
            model,
            images,
            limits,
        ) == Ok::<MetadataModel, Fault>(model),
{
}

} // verus!
