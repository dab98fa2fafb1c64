//! Structural preflight for untrusted HEIF containers.
//!
//! The native decoder applies its item ceiling to each box on its own, so a
//! container assembled from many individually legal boxes can still exceed it.
//! This walk runs before the decoder sees the file and enforces ceilings summed
//! over the whole container. Anything it cannot parse is rejected.
//!
//! Boxes are dispatched by type wherever they appear, not by the scope they sit
//! in, because the decoder does the same. A box the walk does not recognise is
//! left alone.

use vstd::prelude::*;

use super::heic::{Error, Fault};
use crate::wire::{be_u16, be_u32, be_u64};

verus! {

/// Aggregate ceilings enforced before the decoder parses the container.
#[derive(Clone, Copy, Debug)]
pub struct Budget {
    /// Items, `iloc` records, `iref` references, and `ipma` entries summed
    /// across every box of each kind.
    pub max_container_items: u32,
    /// Property associations summed across every `ipma` box.
    pub max_container_associations: u32,
    /// Non-image items, which the decoder loads eagerly while parsing.
    pub max_metadata_items: u32,
    /// Declared extent bytes of those items, counted once per item that
    /// references them.
    pub max_metadata_bytes: u64,
    /// Boxes visited by the walk.
    pub max_container_boxes: u32,
    /// Nesting depth of container boxes.
    pub max_container_depth: u32,
    /// Extents a single `iloc` record may declare.
    pub max_item_extents: u32,
}

/// One `iloc` record's declared extent bytes.
#[derive(Clone, Copy, Debug)]
pub struct Extent {
    pub id: u32,
    pub bytes: u64,
}

/// What has been counted so far, over every box visited.
#[verifier::ext_equal]
pub struct Tally {
    pub items: nat,
    pub iloc_records: nat,
    pub iref_references: nat,
    pub ipma_entries: nat,
    pub ipma_associations: nat,
    pub boxes: nat,
    pub metadata_items: Seq<u32>,
    pub extents: Seq<Extent>,
    pub saw_meta: bool,
    pub saw_mini: bool,
    pub sequence_brand: bool,
}

/// A parsed box header.
#[derive(Clone, Copy)]
pub struct Header {
    pub kind: u32,
    pub body_start: usize,
    pub body_end: usize,
}

/// A box: its four-character type and where its body lies.
pub struct Region {
    pub kind: u32,
    pub start: int,
    pub end: int,
}

impl View for Header {
    type V = Region;

    open spec fn view(&self) -> Region {
        Region { kind: self.kind, start: self.body_start as int, end: self.body_end as int }
    }
}

/// `meta`
pub const META: u32 = 0x6d65_7461;

/// `iinf`
pub const IINF: u32 = 0x6969_6e66;

/// `infe`
pub const INFE: u32 = 0x696e_6665;

/// `iloc`
pub const ILOC: u32 = 0x696c_6f63;

/// `iref`
pub const IREF: u32 = 0x6972_6566;

/// `ipma`
pub const IPMA: u32 = 0x6970_6d61;

/// `stsd`
pub const STSD: u32 = 0x7374_7364;

/// `dref`
pub const DREF: u32 = 0x6472_6566;

/// `urim`
pub const URIM: u32 = 0x7572_696d;

/// `tref`
pub const TREF: u32 = 0x7472_6566;

/// `ftyp`
pub const FTYP: u32 = 0x6674_7970;

/// `mini`
pub const MINI: u32 = 0x6d69_6e69;

/// `uuid`
pub const UUID: u32 = 0x7575_6964;

/// `iprp`
pub const IPRP: u32 = 0x6970_7270;

/// `ipco`
pub const IPCO: u32 = 0x6970_636f;

/// `dinf`
pub const DINF: u32 = 0x6469_6e66;

/// `grpl`
pub const GRPL: u32 = 0x6772_706c;

/// `moov`
pub const MOOV: u32 = 0x6d6f_6f76;

/// `trak`
pub const TRAK: u32 = 0x7472_616b;

/// `mdia`
pub const MDIA: u32 = 0x6d64_6961;

/// `minf`
pub const MINF: u32 = 0x6d69_6e66;

/// `stbl`
pub const STBL: u32 = 0x7374_626c;

/// `edts`
pub const EDTS: u32 = 0x6564_7473;

/// `j2kH`
pub const J2KH: u32 = 0x6a32_6b48;

/// `hvc1`
pub const HVC1: u32 = 0x6876_6331;

/// `av01`
pub const AV01: u32 = 0x6176_3031;

/// `vvc1`
pub const VVC1: u32 = 0x7676_6331;

/// `avc1`
pub const AVC1: u32 = 0x6176_6331;

/// `mjpg`
pub const MJPG: u32 = 0x6d6a_7067;

/// `j2ki`
pub const J2KI: u32 = 0x6a32_6b69;

/// `msf1`
pub const MSF1: u32 = 0x6d73_6631;

/// `isom`
pub const ISOM: u32 = 0x6973_6f6d;

/// `mp41`
pub const MP41: u32 = 0x6d70_3431;

/// `mp42`
pub const MP42: u32 = 0x6d70_3432;

/// `grid`
pub const GRID: u32 = 0x6772_6964;

/// `tili`
pub const TILI: u32 = 0x7469_6c69;

/// `iden`
pub const IDEN: u32 = 0x6964_656e;

/// `iovl`
pub const IOVL: u32 = 0x696f_766c;

/// `unci`
pub const UNCI: u32 = 0x756e_6369;

/// `jpeg`
pub const JPEG: u32 = 0x6a70_6567;

/// `j2k1`
pub const J2K1: u32 = 0x6a32_6b31;

/// `mski`
pub const MSKI: u32 = 0x6d73_6b69;

/// `mime`
pub const MIME: u32 = 0x6d69_6d65;

/// `uri `
pub const URI: u32 = 0x7572_6920;

/// Bytes a visual sample entry carries before its children.
pub const VISUAL_SAMPLE_ENTRY_PREFIX: usize = 78;

/// Offset of the compressor-name length byte inside that prefix.
pub const VISUAL_SAMPLE_ENTRY_NAME_LENGTH: usize = 42;

// ---------------------------------------------------------------------------
// Classification
// ---------------------------------------------------------------------------

/// Box types whose children start immediately after the box header.
pub open spec fn container_kind(kind: u32) -> bool {
    ||| kind == IPRP
    ||| kind == IPCO
    ||| kind == DINF
    ||| kind == GRPL
    ||| kind == MOOV
    ||| kind == TRAK
    ||| kind == MDIA
    ||| kind == MINF
    ||| kind == STBL
    ||| kind == EDTS
    ||| kind == J2KH
}

/// Sample entries whose children start after the visual sample entry prefix.
pub open spec fn visual_kind(kind: u32) -> bool {
    ||| kind == HVC1
    ||| kind == AV01
    ||| kind == VVC1
    ||| kind == AVC1
    ||| kind == MJPG
    ||| kind == J2KI
}

/// Brands for which the decoder requires a movie box instead of a metadata box.
pub open spec fn sequence_brand_kind(brand: u32) -> bool {
    brand == MSF1 || brand == ISOM || brand == MP41 || brand == MP42
}

/// `image/jpeg`.
pub open spec fn jpeg_content_type() -> Seq<u8> {
    seq![0x69u8, 0x6d, 0x61, 0x67, 0x65, 0x2f, 0x6a, 0x70, 0x65, 0x67]
}

/// Item types the decoder treats as images. Every other item is loaded eagerly
/// while the container is parsed.
pub open spec fn image_item(item_type: u32, content_type: Seq<u8>) -> bool {
    ||| item_type == HVC1
    ||| item_type == AV01
    ||| item_type == GRID
    ||| item_type == TILI
    ||| item_type == IDEN
    ||| item_type == IOVL
    ||| item_type == AVC1
    ||| item_type == UNCI
    ||| item_type == VVC1
    ||| item_type == JPEG
    ||| item_type == J2K1
    ||| item_type == MSKI
    ||| item_type == MIME && content_type == jpeg_content_type()
}

/// Whether `kind` is a box whose children start at its body.
pub fn is_container(kind: u32) -> (answer: bool)
    ensures
        answer == container_kind(kind),
{
    kind == IPRP || kind == IPCO || kind == DINF || kind == GRPL || kind == MOOV || kind == TRAK
        || kind == MDIA || kind == MINF || kind == STBL || kind == EDTS || kind == J2KH
}

/// Whether `kind` is a visual sample entry.
pub fn is_visual_sample_entry(kind: u32) -> (answer: bool)
    ensures
        answer == visual_kind(kind),
{
    kind == HVC1 || kind == AV01 || kind == VVC1 || kind == AVC1 || kind == MJPG || kind == J2KI
}

/// Whether `brand` announces an image sequence.
pub fn is_sequence_brand(brand: u32) -> (answer: bool)
    ensures
        answer == sequence_brand_kind(brand),
{
    brand == MSF1 || brand == ISOM || brand == MP41 || brand == MP42
}

/// Whether the decoder treats an item as an image.
pub fn is_image_item(item_type: u32, content_type: &[u8]) -> (answer: bool)
    ensures
        answer == image_item(item_type, content_type@),
{
    let image = item_type == HVC1 || item_type == AV01 || item_type == GRID || item_type == TILI
        || item_type == IDEN || item_type == IOVL || item_type == AVC1 || item_type == UNCI
        || item_type == VVC1 || item_type == JPEG || item_type == J2K1 || item_type == MSKI;
    if image || item_type != MIME {
        return image;
    }
    let jpeg: [u8; 10] = [0x69, 0x6d, 0x61, 0x67, 0x65, 0x2f, 0x6a, 0x70, 0x65, 0x67];
    if content_type.len() != 10 {
        return false;
    }
    let mut index: usize = 0;
    while index < 10
        invariant
            index <= 10,
            item_type == MIME,
            content_type@.len() == 10,
            jpeg@ == jpeg_content_type(),
            forall|i: int| 0 <= i < index ==> content_type@[i] == jpeg@[i],
        decreases 10 - index,
    {
        if content_type[index] != jpeg[index] {
            assert(content_type@[index as int] != jpeg_content_type()[index as int]);
            return false;
        }
        index += 1;
    }
    assert(content_type@ =~= jpeg_content_type());
    true
}

// ---------------------------------------------------------------------------
// Fields
// ---------------------------------------------------------------------------

/// The fault raised when `length` bytes at `offset` are not all present.
pub open spec fn read_fault(offset: int, length: int) -> Fault {
    if offset + length > usize::MAX {
        Fault::Container("box offset overflow"@)
    } else {
        Fault::Container("box is truncated"@)
    }
}

/// Whether `length` bytes at `offset` lie inside the box ending at `end`.
pub open spec fn readable(bytes: Seq<u8>, offset: int, length: int, end: int) -> bool {
    offset + length <= end && offset + length <= bytes.len()
}

/// The big-endian field of `width` bytes at `offset`, bounded by `end`.
pub open spec fn field(bytes: Seq<u8>, offset: int, width: nat, end: int) -> Result<nat, Fault> {
    if readable(bytes, offset, width as int, end) {
        Ok(crate::wire::be(bytes, offset, width))
    } else {
        Err(read_fault(offset, width as int))
    }
}

/// The first zero byte at or after `offset`, or `end` if there is none before it.
pub open spec fn terminator(bytes: Seq<u8>, offset: int, end: int) -> int
    decreases end - offset,
{
    if offset >= end {
        end
    } else if bytes[offset] == 0 {
        offset
    } else {
        terminator(bytes, offset + 1, end)
    }
}

/// The string at `offset`. A string that runs to the end of its box without a
/// terminating zero loses its last byte.
pub open spec fn text_at(bytes: Seq<u8>, offset: int, end: int) -> Seq<u8> {
    let stop = terminator(bytes, offset, end);
    if stop < end || offset == end {
        bytes.subrange(offset, stop)
    } else {
        bytes.subrange(offset, end - 1)
    }
}

/// The offset just past the string at `offset`.
pub open spec fn text_end(bytes: Seq<u8>, offset: int, end: int) -> int {
    let stop = terminator(bytes, offset, end);
    if stop < end {
        stop + 1
    } else {
        end
    }
}

/// The box at `offset`, which must end by `limit`.
///
/// A size of zero means the box runs to `limit`, and a size of one means the
/// length follows in eight bytes. The length covers the header, and a `uuid`
/// box counts its sixteen-byte extended type as part of the header.
pub open spec fn header_at(bytes: Seq<u8>, offset: int, limit: int) -> Result<Region, Fault> {
    let size = crate::wire::be(bytes, offset, 4);
    let kind = crate::wire::be(bytes, offset + 4, 4);
    let length = if size == 0 {
        limit - offset
    } else if size == 1 {
        crate::wire::be(bytes, offset + 8, 8) as int
    } else {
        size as int
    };
    let header = (if size == 1 {
        16int
    } else {
        8int
    }) + (if kind == UUID {
        16int
    } else {
        0int
    });
    if !readable(bytes, offset, 8, limit) {
        Err(read_fault(offset, 8))
    } else if size == 1 && !readable(bytes, offset + 8, 8, limit) {
        Err(read_fault(offset + 8, 8))
    } else if length > usize::MAX {
        Err(Fault::Container("box size is out of range"@))
    } else if length < header {
        Err(Fault::Container("box is smaller than its header"@))
    } else if offset + length > usize::MAX {
        Err(Fault::Container("box offset overflow"@))
    } else if offset + length > limit {
        Err(Fault::Container("box extends past its parent"@))
    } else {
        Ok(
            Region { kind: kind as u32, start: offset + header, end: offset + length },
        )
    }
}

/// `total` raised by `amount`, which must stay within `ceiling`.
pub open spec fn charged(total: nat, amount: nat, ceiling: u32, what: Seq<char>) -> Result<
    nat,
    Fault,
> {
    if total + amount > ceiling {
        Err(Fault::Limit(what))
    } else {
        Ok(total + amount)
    }
}

// ---------------------------------------------------------------------------
// Boxes without children
// ---------------------------------------------------------------------------

/// What an `infe` entry declares.
pub struct ItemEntry {
    pub id: u32,
    pub item_type: u32,
    pub content_type: Seq<u8>,
}

/// The item information entry whose body is `start..end`.
pub open spec fn item_entry(bytes: Seq<u8>, start: int, end: int) -> Result<ItemEntry, Fault> {
    match field(bytes, start, 1, end) {
        Err(fault) => Err(fault),
        Ok(version) => {
            let id_width: nat = if version == 3 {
                4
            } else {
                2
            };
            if version > 3 {
                Err(Fault::Container("unsupported item info version"@))
            } else {
                match field(bytes, start + 4, id_width, end) {
                    Err(fault) => Err(fault),
                    Ok(id) => if version <= 1 {
                        if start + 8 > end {
                            Err(Fault::Container("box is truncated"@))
                        } else {
                            Ok(
                                ItemEntry {
                                    id: id as u32,
                                    item_type: 0,
                                    content_type: text_at(
                                        bytes,
                                        text_end(bytes, start + 8, end),
                                        end,
                                    ),
                                },
                            )
                        }
                    } else {
                        match field(bytes, start + 6 + id_width, 4, end) {
                            Err(fault) => Err(fault),
                            Ok(item_type) => Ok(
                                ItemEntry {
                                    id: id as u32,
                                    item_type: item_type as u32,
                                    content_type: if item_type == MIME {
                                        text_at(
                                            bytes,
                                            text_end(bytes, start + 10 + id_width, end),
                                            end,
                                        )
                                    } else {
                                        Seq::empty()
                                    },
                                },
                            ),
                        }
                    },
                }
            }
        },
    }
}

/// Whether the decoder loads an item's data while parsing. A `mime` item is
/// loaded by a later text pass even when its content type makes it an image.
pub open spec fn eager(entry: ItemEntry) -> bool {
    entry.item_type == MIME || !image_item(entry.item_type, entry.content_type)
}

/// Counts one item. An identifier that was already declared does not add
/// another eager load.
pub open spec fn add_item(budget: Budget, tally: Tally, entry: ItemEntry) -> Result<Tally, Fault> {
    match charged(tally.items, 1, budget.max_container_items, "container item count"@) {
        Err(fault) => Err(fault),
        Ok(items) => if !eager(entry) || tally.metadata_items.contains(entry.id) {
            Ok(Tally { items, ..tally })
        } else if tally.metadata_items.len() >= budget.max_metadata_items {
            Err(Fault::Limit("metadata item count"@))
        } else {
            Ok(Tally { items, metadata_items: tally.metadata_items.push(entry.id), ..tally })
        },
    }
}

/// The field widths an `iloc` box declares.
#[derive(Clone, Copy)]
pub struct Layout {
    pub version: u8,
    pub offset_size: usize,
    pub length_size: usize,
    pub base_offset_size: usize,
    pub index_size: usize,
}

/// Widths the decoder reads; it leaves every other width unread.
pub open spec fn supported_width(width: usize) -> bool {
    width == 0 || width == 4 || width == 8
}

/// The layout that a version and its packed widths stand for.
pub open spec fn layout_of(version: u8, widths: u16) -> Layout {
    Layout {
        version,
        offset_size: (widths / 4096) as usize,
        length_size: (widths / 256 % 16) as usize,
        base_offset_size: (widths / 16 % 16) as usize,
        index_size: if version >= 1 {
            (widths % 16) as usize
        } else {
            0
        },
    }
}

/// Whether every width of a layout can be followed.
pub open spec fn supported_layout(layout: Layout) -> bool {
    &&& supported_width(layout.offset_size)
    &&& supported_width(layout.length_size)
    &&& supported_width(layout.base_offset_size)
    &&& supported_width(layout.index_size)
}

/// The summed length of `count` extents from `offset`, and where they end.
pub open spec fn extent_run(
    bytes: Seq<u8>,
    layout: Layout,
    offset: int,
    end: int,
    count: nat,
    total: nat,
) -> Result<(nat, int), Fault>
    decreases count,
{
    let start = offset + layout.index_size;
    let length = start + layout.offset_size;
    if count == 0 {
        Ok((total, offset))
    } else if start > end {
        Err(read_fault(offset, layout.index_size as int))
    } else if length > end {
        Err(read_fault(start, layout.offset_size as int))
    } else {
        match field(bytes, length, layout.length_size as nat, end) {
            Err(fault) => Err(fault),
            Ok(value) => if total + value > u64::MAX {
                Err(Fault::Limit("item extent bytes"@))
            } else {
                extent_run(
                    bytes,
                    layout,
                    length + layout.length_size,
                    end,
                    (count - 1) as nat,
                    total + value,
                )
            },
        }
    }
}

/// The `iloc` record at `offset`, and where it ends.
pub open spec fn location_at(
    bytes: Seq<u8>,
    budget: Budget,
    layout: Layout,
    offset: int,
    end: int,
) -> Result<(Extent, int), Fault> {
    let id_width: nat = if layout.version < 2 {
        2
    } else {
        4
    };
    let base = offset + id_width + (if layout.version >= 1 {
        4int
    } else {
        2int
    });
    let count_at = base + layout.base_offset_size;
    match field(bytes, offset, id_width, end) {
        Err(fault) => Err(fault),
        Ok(id) => if count_at > end {
            Err(read_fault(base, layout.base_offset_size as int))
        } else {
            match field(bytes, count_at, 2, end) {
                Err(fault) => Err(fault),
                Ok(count) => if count > budget.max_item_extents {
                    Err(Fault::Limit("item extent count"@))
                } else {
                    match extent_run(bytes, layout, count_at + 2, end, count, 0) {
                        Err(fault) => Err(fault),
                        Ok((total, next)) => Ok(
                            (Extent { id: id as u32, bytes: total as u64 }, next),
                        ),
                    }
                },
            }
        },
    }
}

/// `extents` followed by `count` records from `offset`.
pub open spec fn locations(
    bytes: Seq<u8>,
    budget: Budget,
    layout: Layout,
    offset: int,
    end: int,
    count: nat,
    extents: Seq<Extent>,
) -> Result<Seq<Extent>, Fault>
    decreases count,
{
    if count == 0 {
        Ok(extents)
    } else {
        match location_at(bytes, budget, layout, offset, end) {
            Err(fault) => Err(fault),
            Ok((extent, next)) => locations(
                bytes,
                budget,
                layout,
                next,
                end,
                (count - 1) as nat,
                extents.push(extent),
            ),
        }
    }
}

/// Counts an item location box.
pub open spec fn add_locations(
    bytes: Seq<u8>,
    budget: Budget,
    tally: Tally,
    start: int,
    end: int,
) -> Result<Tally, Fault> {
    match field(bytes, start, 1, end) {
        Err(fault) => Err(fault),
        Ok(version) => if version > 2 {
            Err(Fault::Container("unsupported item location version"@))
        } else {
            match field(bytes, start + 4, 2, end) {
                Err(fault) => Err(fault),
                Ok(widths) => {
                    let layout = layout_of(version as u8, widths as u16);
                    let count_width: nat = if version < 2 {
                        2
                    } else {
                        4
                    };
                    if !supported_layout(layout) {
                        Err(Fault::Container("unsupported item location field width"@))
                    } else {
                        match field(bytes, start + 6, count_width, end) {
                            Err(fault) => Err(fault),
                            Ok(count) => match charged(
                                tally.iloc_records,
                                count,
                                budget.max_container_items,
                                "item location record count"@,
                            ) {
                                Err(fault) => Err(fault),
                                Ok(iloc_records) => match locations(
                                    bytes,
                                    budget,
                                    layout,
                                    start + 6 + count_width,
                                    end,
                                    count,
                                    tally.extents,
                                ) {
                                    Err(fault) => Err(fault),
                                    Ok(extents) => Ok(Tally { iloc_records, extents, ..tally }),
                                },
                            },
                        }
                    }
                },
            }
        },
    }
}

/// The reference count after the lists from `offset` to `end`. Each list must
/// be non-empty and fill its box exactly.
pub open spec fn reference_lists(
    bytes: Seq<u8>,
    budget: Budget,
    id_size: nat,
    offset: int,
    end: int,
    total: nat,
) -> Result<nat, Fault>
    decreases end - offset,
{
    if offset >= end {
        Ok(total)
    } else {
        match header_at(bytes, offset, end) {
            Err(fault) => Err(fault),
            Ok(child) => match field(
                bytes,
                child.start + id_size,
                2,
                child.end,
            ) {
                Err(fault) => Err(fault),
                Ok(count) => if count == 0 {
                    Err(Fault::Container("reference list is empty"@))
                } else {
                    match charged(total, count, budget.max_container_items, "reference count"@) {
                        Err(fault) => Err(fault),
                        Ok(raised) => if child.end - child.start != id_size + 2 + count
                            * id_size {
                            Err(Fault::Container("reference list does not fill its box"@))
                        } else {
                            reference_lists(
                                bytes,
                                budget,
                                id_size,
                                child.end,
                                end,
                                raised,
                            )
                        },
                    }
                },
            },
        }
    }
}

/// Counts an item reference box.
pub open spec fn add_references(
    bytes: Seq<u8>,
    budget: Budget,
    tally: Tally,
    start: int,
    end: int,
) -> Result<Tally, Fault> {
    if !readable(bytes, start, 4, end) {
        Err(read_fault(start, 4))
    } else if bytes[start] > 1 {
        Err(Fault::Container("unsupported reference version"@))
    } else {
        match reference_lists(
            bytes,
            budget,
            if bytes[start] == 0 {
                2
            } else {
                4
            },
            start + 4,
            end,
            tally.iref_references,
        ) {
            Err(fault) => Err(fault),
            Ok(iref_references) => Ok(Tally { iref_references, ..tally }),
        }
    }
}

/// The reference count after the track reference lists from `offset` to `end`.
pub open spec fn track_lists(
    bytes: Seq<u8>,
    budget: Budget,
    offset: int,
    end: int,
    total: nat,
) -> Result<nat, Fault>
    decreases end - offset,
{
    if offset >= end {
        Ok(total)
    } else {
        match field(bytes, offset, 4, end) {
            Err(fault) => Err(fault),
            Ok(declared) => if declared == 0 {
                Err(Fault::Container("track reference list has an unspecified size"@))
            } else {
                match header_at(bytes, offset, end) {
                    Err(fault) => Err(fault),
                    Ok(child) => {
                        let length = child.end - child.start;
                        if length < 4 || length % 4 != 0 {
                            Err(Fault::Container("track reference list has an invalid size"@))
                        } else {
                            match charged(
                                total,
                                (length / 4) as nat,
                                budget.max_container_items,
                                "reference count"@,
                            ) {
                                Err(fault) => Err(fault),
                                Ok(raised) => track_lists(
                                    bytes,
                                    budget,
                                    child.end,
                                    end,
                                    raised,
                                ),
                            }
                        }
                    },
                }
            },
        }
    }
}

/// The association count after `count` entries from `offset`.
pub open spec fn association_entries(
    bytes: Seq<u8>,
    budget: Budget,
    id_width: nat,
    width: nat,
    offset: int,
    end: int,
    count: nat,
    total: nat,
) -> Result<nat, Fault>
    decreases count,
{
    if count == 0 {
        Ok(total)
    } else if offset + id_width > end {
        Err(read_fault(offset, id_width as int))
    } else {
        match field(bytes, offset + id_width, 1, end) {
            Err(fault) => Err(fault),
            Ok(associations) => match charged(
                total,
                associations,
                budget.max_container_associations,
                "property association count"@,
            ) {
                Err(fault) => Err(fault),
                Ok(raised) => {
                    let list = offset + id_width + 1;
                    if list + associations * width > end {
                        Err(read_fault(list, (associations * width) as int))
                    } else {
                        association_entries(
                            bytes,
                            budget,
                            id_width,
                            width,
                            list + associations * width,
                            end,
                            (count - 1) as nat,
                            raised,
                        )
                    }
                },
            },
        }
    }
}

/// Counts an item property association box.
pub open spec fn add_associations(
    bytes: Seq<u8>,
    budget: Budget,
    tally: Tally,
    start: int,
    end: int,
) -> Result<Tally, Fault> {
    match field(bytes, start, 1, end) {
        Err(fault) => Err(fault),
        Ok(version) => if version > 1 {
            Err(Fault::Container("unsupported property association version"@))
        } else {
            match field(bytes, start + 3, 1, end) {
                Err(fault) => Err(fault),
                Ok(flags) => match field(bytes, start + 4, 4, end) {
                    Err(fault) => Err(fault),
                    Ok(count) => match charged(
                        tally.ipma_entries,
                        count,
                        budget.max_container_items,
                        "property association count"@,
                    ) {
                        Err(fault) => Err(fault),
                        Ok(ipma_entries) => match association_entries(
                            bytes,
                            budget,
                            if version < 1 {
                                2
                            } else {
                                4
                            },
                            if flags % 2 != 0 {
                                2
                            } else {
                                1
                            },
                            start + 8,
                            end,
                            count,
                            tally.ipma_associations,
                        ) {
                            Err(fault) => Err(fault),
                            Ok(ipma_associations) => Ok(
                                Tally { ipma_entries, ipma_associations, ..tally },
                            ),
                        },
                    },
                },
            }
        },
    }
}

/// The `index`th compatible brand of the file type box starting at `start`.
pub open spec fn compatible_brand(bytes: Seq<u8>, start: int, index: int) -> u32 {
    crate::wire::be(bytes, start + 8 + 4 * index, 4) as u32
}

/// Whether the major brand or any compatible brand announces a sequence.
pub open spec fn announces_sequence(bytes: Seq<u8>, start: int, end: int) -> bool {
    ||| sequence_brand_kind(crate::wire::be(bytes, start, 4) as u32)
    ||| exists|index: int|
        0 <= index && start + 12 + 4 * index <= end && sequence_brand_kind(
            #[trigger] compatible_brand(bytes, start, index),
        )
}

// ---------------------------------------------------------------------------
// The walk
// ---------------------------------------------------------------------------

/// The offset `first`, which must not lie past the box's end.
pub open spec fn child_start(first: int, end: int) -> Result<int, Fault> {
    if first > end {
        Err(Fault::Container("box is truncated"@))
    } else {
        Ok(first)
    }
}

/// Where the children of a box start, for the types whose body is nothing but
/// a prefix and children. `None` for every other type.
pub open spec fn children_at(bytes: Seq<u8>, header: Region) -> Option<Result<int, Fault>> {
    let start = header.start;
    let end = header.end;
    if header.kind == META {
        Some(child_start(start + 4, end))
    } else if header.kind == DREF || header.kind == URIM {
        Some(child_start(start + 8, end))
    } else if container_kind(header.kind) {
        Some(child_start(start, end))
    } else if visual_kind(header.kind) {
        if !readable(bytes, start, VISUAL_SAMPLE_ENTRY_PREFIX as int, end) {
            Some(Err(read_fault(start, VISUAL_SAMPLE_ENTRY_PREFIX as int)))
        } else if bytes[start + VISUAL_SAMPLE_ENTRY_NAME_LENGTH] > 31 {
            Some(Err(Fault::Container("sample entry compressor name is too long"@)))
        } else {
            Some(Ok(start + VISUAL_SAMPLE_ENTRY_PREFIX))
        }
    } else {
        None
    }
}

/// Counts one box and everything inside it.
pub open spec fn visited(
    bytes: Seq<u8>,
    budget: Budget,
    tally: Tally,
    header: Region,
    depth: nat,
) -> Result<Tally, Fault>
    decreases header.end - header.start, 1nat,
{
    let start = header.start;
    let end = header.end;
    let counted = Tally {
        boxes: tally.boxes + 1,
        saw_meta: tally.saw_meta || header.kind == META,
        saw_mini: tally.saw_mini || header.kind == MINI,
        ..tally
    };
    if depth > budget.max_container_depth {
        Err(Fault::Limit("box nesting depth"@))
    } else if tally.boxes + 1 > budget.max_container_boxes {
        Err(Fault::Limit("box count"@))
    } else if header.kind == IINF {
        item_information(bytes, budget, counted, start, end, depth)
    } else if header.kind == STSD {
        sample_description(bytes, budget, counted, start, end, depth)
    } else if header.kind == INFE {
        match item_entry(bytes, start, end) {
            Err(fault) => Err(fault),
            Ok(entry) => add_item(budget, counted, entry),
        }
    } else if header.kind == ILOC {
        add_locations(bytes, budget, counted, start, end)
    } else if header.kind == IREF {
        add_references(bytes, budget, counted, start, end)
    } else if header.kind == IPMA {
        add_associations(bytes, budget, counted, start, end)
    } else if header.kind == TREF {
        match track_lists(bytes, budget, start, end, counted.iref_references) {
            Err(fault) => Err(fault),
            Ok(iref_references) => Ok(Tally { iref_references, ..counted }),
        }
    } else if header.kind == FTYP {
        if end - start < 8 {
            Err(Fault::Container("file type box is truncated"@))
        } else {
            Ok(Tally { sequence_brand: announces_sequence(bytes, start, end), ..counted })
        }
    } else {
        match children_at(bytes, header) {
            None => Ok(counted),
            Some(Err(fault)) => Err(fault),
            Some(Ok(first)) => match walked(bytes, budget, counted, first, end, depth + 1) {
                Err(fault) => Err(fault),
                Ok((inner, _)) => Ok(inner),
            },
        }
    }
}

/// Counts an item information box, whose declared count must be the number of
/// its children.
pub open spec fn item_information(
    bytes: Seq<u8>,
    budget: Budget,
    tally: Tally,
    start: int,
    end: int,
    depth: nat,
) -> Result<Tally, Fault>
    decreases end - start, 0nat,
{
    match field(bytes, start, 1, end) {
        Err(fault) => Err(fault),
        Ok(version) => {
            let width: nat = if version == 0 {
                2
            } else {
                4
            };
            match field(bytes, start + 4, width, end) {
                Err(fault) => Err(fault),
                Ok(declared) => match walked(
                    bytes,
                    budget,
                    tally,
                    start + 4 + width,
                    end,
                    depth + 1,
                ) {
                    Err(fault) => Err(fault),
                    Ok((inner, seen)) => if seen != declared {
                        Err(Fault::Container("item information count does not match its entries"@))
                    } else {
                        Ok(inner)
                    },
                },
            }
        },
    }
}

/// Counts a sample description box.
pub open spec fn sample_description(
    bytes: Seq<u8>,
    budget: Budget,
    tally: Tally,
    start: int,
    end: int,
    depth: nat,
) -> Result<Tally, Fault>
    decreases end - start, 0nat,
{
    match field(bytes, start, 1, end) {
        Err(fault) => Err(fault),
        Ok(version) => if version != 0 {
            Err(Fault::Container("unsupported sample description version"@))
        } else {
            match field(bytes, start + 4, 4, end) {
                Err(fault) => Err(fault),
                Ok(count) => sampled(bytes, budget, tally, start + 8, end, depth + 1, count),
            }
        },
    }
}

/// Counts the boxes from `offset` to `end`, and says how many there are.
pub open spec fn walked(
    bytes: Seq<u8>,
    budget: Budget,
    tally: Tally,
    offset: int,
    end: int,
    depth: nat,
) -> Result<(Tally, nat), Fault>
    decreases end - offset, 0nat,
{
    if offset >= end {
        Ok((tally, 0))
    } else {
        match header_at(bytes, offset, end) {
            Err(fault) => Err(fault),
            Ok(header) => match visited(bytes, budget, tally, header, depth) {
                Err(fault) => Err(fault),
                Ok(inner) => match walked(
                    bytes,
                    budget,
                    inner,
                    header.end,
                    end,
                    depth,
                ) {
                    Err(fault) => Err(fault),
                    Ok((last, rest)) => Ok((last, rest + 1)),
                },
            },
        }
    }
}

/// Counts `count` sample entries from `offset`.
pub open spec fn sampled(
    bytes: Seq<u8>,
    budget: Budget,
    tally: Tally,
    offset: int,
    end: int,
    depth: nat,
    count: nat,
) -> Result<Tally, Fault>
    decreases end - offset, 0nat,
{
    if count == 0 {
        Ok(tally)
    } else if offset >= end {
        Err(Fault::Container("sample description is truncated"@))
    } else {
        match header_at(bytes, offset, end) {
            Err(fault) => Err(fault),
            Ok(header) => match visited(bytes, budget, tally, header, depth) {
                Err(fault) => Err(fault),
                Ok(inner) => sampled(
                    bytes,
                    budget,
                    inner,
                    header.end,
                    end,
                    depth,
                    (count - 1) as nat,
                ),
            },
        }
    }
}

/// The largest extent declared for `id` among `extents`.
pub open spec fn largest_extent(extents: Seq<Extent>, id: u32) -> u64
    decreases extents.len(),
{
    if extents.len() == 0 {
        0
    } else {
        let rest = largest_extent(extents.drop_last(), id);
        if extents.last().id == id && extents.last().bytes > rest {
            extents.last().bytes
        } else {
            rest
        }
    }
}

/// The bytes the decoder loads eagerly: for each item, its largest extent.
pub open spec fn metadata_bytes(items: Seq<u32>, extents: Seq<Extent>) -> nat
    decreases items.len(),
{
    if items.len() == 0 {
        0
    } else {
        metadata_bytes(items.drop_last(), extents) + largest_extent(extents, items.last()) as nat
    }
}

/// Nothing counted yet.
pub open spec fn empty_tally() -> Tally {
    Tally {
        items: 0,
        iloc_records: 0,
        iref_references: 0,
        ipma_entries: 0,
        ipma_associations: 0,
        boxes: 0,
        metadata_items: Seq::empty(),
        extents: Seq::empty(),
        saw_meta: false,
        saw_mini: false,
        sequence_brand: false,
    }
}

/// The verdict on a whole container: what it holds, or why it is refused.
pub open spec fn inspected(bytes: Seq<u8>, budget: Budget) -> Result<Tally, Fault> {
    match walked(bytes, budget, empty_tally(), 0, bytes.len() as int, 0) {
        Err(fault) => Err(fault),
        Ok((tally, _)) => if !tally.saw_meta && !tally.saw_mini && !tally.sequence_brand {
            Err(Fault::Container("no metadata box"@))
        } else if metadata_bytes(tally.metadata_items, tally.extents) > budget.max_metadata_bytes {
            Err(Fault::Limit("metadata extent bytes"@))
        } else {
            Ok(tally)
        },
    }
}

// ---------------------------------------------------------------------------
// Execution
// ---------------------------------------------------------------------------

fn malformed(text: &'static str) -> (error: Error)
    ensures
        error@ == Fault::Container(text@),
{
    Error::Container(text.to_owned())
}

/// `offset` moved forward by `length`.
fn past(offset: usize, length: usize) -> (moved: Result<usize, Error>)
    ensures
        match moved {
            Ok(next) => next == offset + length,
            Err(error) => offset + length > usize::MAX && error@ == read_fault(
                offset as int,
                length as int,
            ),
        },
{
    match offset.checked_add(length) {
        Some(next) => Ok(next),
        None => Err(malformed("box offset overflow")),
    }
}

struct Walk<'a> {
    bytes: &'a [u8],
    budget: &'a Budget,
    items: u32,
    iloc_records: u32,
    iref_references: u32,
    ipma_entries: u32,
    ipma_associations: u32,
    boxes: u32,
    metadata_items: Vec<u32>,
    extents: Vec<Extent>,
    saw_meta: bool,
    saw_mini: bool,
    sequence_brand: bool,
}

impl<'a> View for Walk<'a> {
    type V = Tally;

    closed spec fn view(&self) -> Tally {
        Tally {
            items: self.items as nat,
            iloc_records: self.iloc_records as nat,
            iref_references: self.iref_references as nat,
            ipma_entries: self.ipma_entries as nat,
            ipma_associations: self.ipma_associations as nat,
            boxes: self.boxes as nat,
            metadata_items: self.metadata_items@,
            extents: self.extents@,
            saw_meta: self.saw_meta,
            saw_mini: self.saw_mini,
            sequence_brand: self.sequence_brand,
        }
    }
}

/// Raises a counter, refusing to pass its ceiling.
fn charge(total: u32, amount: u32, ceiling: u32, what: &'static str) -> (raised: Result<
    u32,
    Error,
>)
    ensures
        super::heic::outcome(raised, raised->Ok_0 as nat) == charged(
            total as nat,
            amount as nat,
            ceiling,
            what@,
        ),
{
    match total.checked_add(amount) {
        Some(sum) => if sum > ceiling {
            Err(Error::Limit(what))
        } else {
            Ok(sum)
        },
        None => Err(Error::Limit(what)),
    }
}

impl<'a> Walk<'a> {
    /// The walk is over the same container, and its eager items stay in budget.
    closed spec fn same_source(&self, other: &Walk<'a>) -> bool {
        &&& self.bytes == other.bytes
        &&& self.budget == other.budget
    }

    closed spec fn wf(&self) -> bool {
        self.metadata_items@.len() <= self.budget.max_metadata_items
    }

    fn read(&self, offset: usize, length: usize, end: usize) -> (slice: Result<&'a [u8], Error>)
        ensures
            match slice {
                Ok(found) => readable(self.bytes@, offset as int, length as int, end as int)
                    && found@ == self.bytes@.subrange(offset as int, offset + length),
                Err(error) => !readable(self.bytes@, offset as int, length as int, end as int)
                    && error@ == read_fault(offset as int, length as int),
            },
    {
        let stop = past(offset, length)?;
        if stop > end || stop > self.bytes.len() {
            return Err(malformed("box is truncated"));
        }
        let bytes: &'a [u8] = self.bytes;
        Ok(&bytes[offset..stop])
    }

    fn advance(&self, offset: usize, length: usize, end: usize) -> (moved: Result<usize, Error>)
        ensures
            match moved {
                Ok(next) => next == offset + length && next <= end,
                Err(error) => offset + length > end && error@ == read_fault(
                    offset as int,
                    length as int,
                ),
            },
    {
        let stop = past(offset, length)?;
        if stop > end {
            return Err(malformed("box is truncated"));
        }
        Ok(stop)
    }

    fn read_u8(&self, offset: usize, end: usize) -> (value: Result<u8, Error>)
        ensures
            super::heic::outcome(value, value->Ok_0 as nat) == field(
                self.bytes@,
                offset as int,
                1,
                end as int,
            ),
    {
        proof {
            reveal_with_fuel(crate::wire::be, 2);
        }
        let bytes = self.read(offset, 1, end)?;
        Ok(bytes[0])
    }

    fn read_u16(&self, offset: usize, end: usize) -> (value: Result<u16, Error>)
        ensures
            super::heic::outcome(value, value->Ok_0 as nat) == field(
                self.bytes@,
                offset as int,
                2,
                end as int,
            ),
    {
        let _ = self.read(offset, 2, end)?;
        Ok(be_u16(self.bytes, offset))
    }

    fn read_u32(&self, offset: usize, end: usize) -> (value: Result<u32, Error>)
        ensures
            super::heic::outcome(value, value->Ok_0 as nat) == field(
                self.bytes@,
                offset as int,
                4,
                end as int,
            ),
    {
        let _ = self.read(offset, 4, end)?;
        Ok(be_u32(self.bytes, offset))
    }

    fn read_uint(&self, offset: usize, width: usize, end: usize) -> (value: Result<u64, Error>)
        requires
            supported_width(width),
            width == 0 ==> offset <= end <= self.bytes@.len(),
        ensures
            super::heic::outcome(value, value->Ok_0 as nat) == field(
                self.bytes@,
                offset as int,
                width as nat,
                end as int,
            ),
    {
        if width == 0 {
            Ok(0)
        } else if width == 4 {
            let value: u32 = self.read_u32(offset, end)?;
            Ok(value as u64)
        } else {
            let _ = self.read(offset, 8, end)?;
            Ok(be_u64(self.bytes, offset))
        }
    }

    fn read_header(&self, offset: usize, limit: usize) -> (header: Result<Header, Error>)
        requires
            offset <= limit <= self.bytes@.len(),
        ensures
            super::heic::outcome(header, header->Ok_0@) == header_at(
                self.bytes@,
                offset as int,
                limit as int,
            ),
    {
        proof {
            crate::wire::lemma_be_fits(self.bytes@, offset as int);
            crate::wire::lemma_be_fits(self.bytes@, offset + 4);
            crate::wire::lemma_be_fits(self.bytes@, offset + 8);
        }
        let _ = self.read(offset, 8, limit)?;
        let size: u32 = be_u32(self.bytes, offset);
        let kind: u32 = be_u32(self.bytes, offset + 4);
        let box_length: usize;
        let mut header_length: usize = 8;
        if size == 0 {
            box_length = limit - offset;
        } else if size == 1 {
            let _ = self.read(offset + 8, 8, limit)?;
            let large: u64 = be_u64(self.bytes, offset + 8);
            if large > usize::MAX as u64 {
                return Err(malformed("box size is out of range"));
            }
            box_length = large as usize;
            header_length = 16;
        } else {
            box_length = size as usize;
        }
        if kind == UUID {
            header_length += 16;
        }
        if box_length < header_length {
            return Err(malformed("box is smaller than its header"));
        }
        let body_end: usize = match offset.checked_add(box_length) {
            Some(body_end) => body_end,
            None => return Err(malformed("box offset overflow")),
        };
        if body_end > limit {
            return Err(malformed("box extends past its parent"));
        }
        Ok(Header { kind, body_start: offset + header_length, body_end })
    }

    /// Reads the string at `offset` and moves past it.
    fn read_cstring(&self, offset: &mut usize, end: usize) -> (value: Result<&'a [u8], Error>)
        requires
            end <= self.bytes@.len(),
        ensures
            match value {
                Ok(text) => *old(offset) <= end && text@ == text_at(
                    self.bytes@,
                    *old(offset) as int,
                    end as int,
                ) && *final(offset) == text_end(self.bytes@, *old(offset) as int, end as int)
                    && *final(offset) <= end,
                Err(error) => *old(offset) > end && error@ == Fault::Container(
                    "box is truncated"@,
                ),
            },
    {
        let start: usize = *offset;
        if start > end {
            return Err(malformed("box is truncated"));
        }
        let bytes: &'a [u8] = self.bytes;
        let mut stop: usize = start;
        while stop < end && bytes[stop] != 0
            invariant
                start <= stop <= end,
                end <= bytes@.len(),
                terminator(bytes@, start as int, end as int) == terminator(
                    bytes@,
                    stop as int,
                    end as int,
                ),
            decreases end - stop,
        {
            stop += 1;
        }
        if stop < end {
            *offset = stop + 1;
            Ok(&bytes[start..stop])
        } else if start < end {
            *offset = end;
            Ok(&bytes[start..end - 1])
        } else {
            *offset = end;
            Ok(&bytes[start..end])
        }
    }

    /// Reads one item information entry and records whether the decoder loads
    /// its data eagerly.
    #[verifier::loop_isolation(false)]
    fn parse_infe(&mut self, header: &Header) -> (result: Result<(), Error>)
        requires
            old(self).wf(),
            header.body_start <= header.body_end <= old(self).bytes@.len(),
        ensures
            final(self).same_source(old(self)),
            final(self).wf(),
            super::heic::outcome(result, final(self)@) == match item_entry(
                old(self).bytes@,
                header.body_start as int,
                header.body_end as int,
            ) {
                Err(fault) => Err(fault),
                Ok(entry) => add_item(*old(self).budget, old(self)@, entry),
            },
    {
        let start: usize = header.body_start;
        let end: usize = header.body_end;
        let version: u8 = self.read_u8(start, end)?;
        if version > 3 {
            return Err(malformed("unsupported item info version"));
        }
        let mut offset: usize = past(start, 4)?;
        let id: u32;
        let item_type: u32;
        let mut content_type: &'a [u8] = &self.bytes[0..0];
        if version <= 1 {
            let narrow: u16 = self.read_u16(offset, end)?;
            id = narrow as u32;
            if end - start < 8 {
                return Err(malformed("box is truncated"));
            }
            offset = start + 8;
            let _ = self.read_cstring(&mut offset, end)?;
            content_type = self.read_cstring(&mut offset, end)?;
            let _ = self.read_cstring(&mut offset, end)?;
            item_type = 0;
        } else {
            if version == 2 {
                let narrow: u16 = self.read_u16(offset, end)?;
                id = narrow as u32;
                offset = past(start, 8)?;
            } else {
                id = self.read_u32(offset, end)?;
                offset = past(start, 10)?;
            }
            item_type = self.read_u32(offset, end)?;
            offset += 4;
            let _ = self.read_cstring(&mut offset, end)?;
            if item_type == MIME {
                content_type = self.read_cstring(&mut offset, end)?;
            }
            if item_type == URI {
                let _ = self.read_cstring(&mut offset, end)?;
            }
        }
        self.items =
        charge(self.items, 1, self.budget.max_container_items, "container item count")?;
        if is_image_item(item_type, content_type) && item_type != MIME {
            return Ok(());
        }
        let mut index: usize = 0;
        while index < self.metadata_items.len()
            invariant
                index <= self.metadata_items@.len(),
                forall|i: int| 0 <= i < index ==> self.metadata_items@[i] != id,
            decreases self.metadata_items@.len() - index,
        {
            if self.metadata_items[index] == id {
                return Ok(());
            }
            index += 1;
        }
        if index as u64 >= self.budget.max_metadata_items as u64 {
            return Err(Error::Limit("metadata item count"));
        }
        self.metadata_items.push(id);
        Ok(())
    }

    /// Reads an item location box, counting records and retaining each item's
    /// declared extent bytes.
    #[verifier::loop_isolation(false)]
    fn parse_iloc(&mut self, header: &Header) -> (result: Result<(), Error>)
        requires
            old(self).wf(),
            header.body_start <= header.body_end <= old(self).bytes@.len(),
        ensures
            final(self).same_source(old(self)),
            final(self).wf(),
            super::heic::outcome(result, final(self)@) == add_locations(
                old(self).bytes@,
                *old(self).budget,
                old(self)@,
                header.body_start as int,
                header.body_end as int,
            ),
    {
        let start: usize = header.body_start;
        let end: usize = header.body_end;
        let version: u8 = self.read_u8(start, end)?;
        if version > 2 {
            return Err(malformed("unsupported item location version"));
        }
        let mut offset: usize = past(start, 4)?;
        let widths: u16 = self.read_u16(offset, end)?;
        offset += 2;
        let layout = Layout {
            version,
            offset_size: (widths / 4096) as usize,
            length_size: (widths / 256 % 16) as usize,
            base_offset_size: (widths / 16 % 16) as usize,
            index_size: if version >= 1 {
                (widths % 16) as usize
            } else {
                0
            },
        };
        if !is_supported_width(layout.offset_size) || !is_supported_width(layout.length_size)
            || !is_supported_width(layout.base_offset_size) || !is_supported_width(
            layout.index_size,
        ) {
            return Err(malformed("unsupported item location field width"));
        }
        let item_count: u32;
        if version < 2 {
            let narrow: u16 = self.read_u16(offset, end)?;
            item_count = narrow as u32;
            offset += 2;
        } else {
            item_count = self.read_u32(offset, end)?;
            offset += 4;
        }
        self.iloc_records =
        charge(
            self.iloc_records,
            item_count,
            self.budget.max_container_items,
            "item location record count",
        )?;
        let ghost entry = *self;
        let ghost whole = locations(
            self.bytes@,
            *self.budget,
            layout,
            offset as int,
            end as int,
            item_count as nat,
            self.extents@,
        );
        let mut remaining: u32 = item_count;
        while remaining > 0
            invariant
                offset <= end <= self.bytes@.len(),
                supported_layout(layout),
                self.wf(),
                self.same_source(&entry),
                self@ == (Tally { extents: self.extents@, ..entry@ }),
                whole == locations(
                    self.bytes@,
                    *self.budget,
                    layout,
                    offset as int,
                    end as int,
                    remaining as nat,
                    self.extents@,
                ),
            decreases remaining,
        {
            let (extent, next) = self.read_location(&layout, offset, end)?;
            offset = next;
            self.extents.push(extent);
            remaining -= 1;
        }
        Ok(())
    }

    /// Reads one item location record and where it ends.
    #[verifier::loop_isolation(false)]
    fn read_location(&self, layout: &Layout, start: usize, end: usize) -> (record: Result<
        (Extent, usize),
        Error,
    >)
        requires
            start <= end <= self.bytes@.len(),
            supported_layout(*layout),
        ensures
            super::heic::outcome(record, (record->Ok_0.0, record->Ok_0.1 as int)) == location_at(
                self.bytes@,
                *self.budget,
                *layout,
                start as int,
                end as int,
            ),
            record is Ok ==> record->Ok_0.1 <= end,
    {
        let id: u32;
        let mut offset: usize;
        if layout.version < 2 {
            let narrow: u16 = self.read_u16(start, end)?;
            id = narrow as u32;
            offset = start + 2;
        } else {
            id = self.read_u32(start, end)?;
            offset = start + 4;
        }
        // The construction method, in later versions, and the data reference.
        let skipped: usize = if layout.version >= 1 {
            4
        } else {
            2
        };
        offset = past(offset, skipped)?;
        offset = self.advance(offset, layout.base_offset_size, end)?;
        let extent_count: u16 = self.read_u16(offset, end)?;
        offset += 2;
        if extent_count as u32 > self.budget.max_item_extents {
            return Err(Error::Limit("item extent count"));
        }
        let ghost whole = extent_run(
            self.bytes@,
            *layout,
            offset as int,
            end as int,
            extent_count as nat,
            0,
        );
        let mut total: u64 = 0;
        let mut remaining: u16 = extent_count;
        while remaining > 0
            invariant
                offset <= end <= self.bytes@.len(),
                supported_layout(*layout),
                whole == extent_run(
                    self.bytes@,
                    *layout,
                    offset as int,
                    end as int,
                    remaining as nat,
                    total as nat,
                ),
            decreases remaining,
        {
            offset = self.advance(offset, layout.index_size, end)?;
            offset = self.advance(offset, layout.offset_size, end)?;
            let length: u64 = self.read_uint(offset, layout.length_size, end)?;
            total =
            match total.checked_add(length) {
                Some(sum) => sum,
                None => return Err(Error::Limit("item extent bytes")),
            };
            offset = self.advance(offset, layout.length_size, end)?;
            remaining -= 1;
        }
        Ok((Extent { id, bytes: total }, offset))
    }

    /// Reads a reference box, counting references summed across every child.
    #[verifier::loop_isolation(false)]
    fn parse_iref(&mut self, header: &Header) -> (result: Result<(), Error>)
        requires
            old(self).wf(),
            header.body_start <= header.body_end <= old(self).bytes@.len(),
        ensures
            final(self).same_source(old(self)),
            final(self).wf(),
            super::heic::outcome(result, final(self)@) == add_references(
                old(self).bytes@,
                *old(self).budget,
                old(self)@,
                header.body_start as int,
                header.body_end as int,
            ),
    {
        let end: usize = header.body_end;
        let _ = self.read(header.body_start, 4, end)?;
        let version: u8 = self.bytes[header.body_start];
        if version > 1 {
            return Err(malformed("unsupported reference version"));
        }
        let id_size: usize = if version == 0 {
            2
        } else {
            4
        };
        let mut offset: usize = header.body_start + 4;
        let ghost entry = *self;
        let ghost whole = reference_lists(
            self.bytes@,
            *self.budget,
            id_size as nat,
            offset as int,
            end as int,
            self.iref_references as nat,
        );
        while offset < end
            invariant
                offset <= end <= self.bytes@.len(),
                id_size == 2 || id_size == 4,
                self.wf(),
                self.same_source(&entry),
                self@ == (Tally { iref_references: self.iref_references as nat, ..entry@ }),
                whole == reference_lists(
                    self.bytes@,
                    *self.budget,
                    id_size as nat,
                    offset as int,
                    end as int,
                    self.iref_references as nat,
                ),
            decreases end - offset,
        {
            let child = self.read_header(offset, end)?;
            let count_at: usize = past(child.body_start, id_size)?;
            let count: u16 = self.read_u16(count_at, child.body_end)?;
            if count == 0 {
                return Err(malformed("reference list is empty"));
            }
            self.iref_references =
            charge(
                self.iref_references,
                count as u32,
                self.budget.max_container_items,
                "reference count",
            )?;
            assert(count * id_size == id_size * count) by (nonlinear_arith);
            assert(id_size * count <= 4 * 65535) by (nonlinear_arith)
                requires
                    id_size <= 4,
                    count <= 65535,
            ;
            if child.body_end - child.body_start != id_size + 2 + id_size * (count as usize) {
                return Err(malformed("reference list does not fill its box"));
            }
            offset = child.body_end;
        }
        Ok(())
    }

    /// Reads a track reference box, counting the destinations of every list.
    #[verifier::loop_isolation(false)]
    fn parse_tref(&mut self, header: &Header) -> (result: Result<(), Error>)
        requires
            old(self).wf(),
            header.body_start <= header.body_end <= old(self).bytes@.len(),
        ensures
            final(self).same_source(old(self)),
            final(self).wf(),
            super::heic::outcome(result, final(self)@) == match track_lists(
                old(self).bytes@,
                *old(self).budget,
                header.body_start as int,
                header.body_end as int,
                old(self)@.iref_references,
            ) {
                Err(fault) => Err(fault),
                Ok(iref_references) => Ok(Tally { iref_references, ..old(self)@ }),
            },
    {
        let end: usize = header.body_end;
        let mut offset: usize = header.body_start;
        let ghost entry = *self;
        let ghost whole = track_lists(
            self.bytes@,
            *self.budget,
            offset as int,
            end as int,
            self.iref_references as nat,
        );
        while offset < end
            invariant
                offset <= end <= self.bytes@.len(),
                self.wf(),
                self.same_source(&entry),
                self@ == (Tally { iref_references: self.iref_references as nat, ..entry@ }),
                whole == track_lists(
                    self.bytes@,
                    *self.budget,
                    offset as int,
                    end as int,
                    self.iref_references as nat,
                ),
            decreases end - offset,
        {
            let declared: u32 = self.read_u32(offset, end)?;
            if declared == 0 {
                return Err(malformed("track reference list has an unspecified size"));
            }
            let child = self.read_header(offset, end)?;
            let length: usize = child.body_end - child.body_start;
            if length < 4 || length % 4 != 0 {
                return Err(malformed("track reference list has an invalid size"));
            }
            let count: usize = length / 4;
            if count as u64 > u32::MAX as u64 {
                return Err(Error::Limit("reference count"));
            }
            self.iref_references =
            charge(
                self.iref_references,
                count as u32,
                self.budget.max_container_items,
                "reference count",
            )?;
            offset = child.body_end;
        }
        Ok(())
    }

    /// Reads an item property association box, counting entries and
    /// associations.
    fn parse_ipma(&mut self, header: &Header) -> (result: Result<(), Error>)
        requires
            old(self).wf(),
            header.body_start <= header.body_end <= old(self).bytes@.len(),
        ensures
            final(self).same_source(old(self)),
            final(self).wf(),
            super::heic::outcome(result, final(self)@) == add_associations(
                old(self).bytes@,
                *old(self).budget,
                old(self)@,
                header.body_start as int,
                header.body_end as int,
            ),
    {
        let start: usize = header.body_start;
        let end: usize = header.body_end;
        let version: u8 = self.read_u8(start, end)?;
        if version > 1 {
            return Err(malformed("unsupported property association version"));
        }
        let flags_at: usize = past(start, 3)?;
        let flags: u8 = self.read_u8(flags_at, end)?;
        let count_at: usize = past(start, 4)?;
        let entry_count: u32 = self.read_u32(count_at, end)?;
        self.ipma_entries =
        charge(
            self.ipma_entries,
            entry_count,
            self.budget.max_container_items,
            "property association count",
        )?;
        let id_width: usize = if version < 1 {
            2
        } else {
            4
        };
        let width: usize = if flags % 2 != 0 {
            2
        } else {
            1
        };
        self.ipma_associations =
        self.read_associations(id_width, width, count_at + 4, end, entry_count)?;
        Ok(())
    }

    /// The association count after `count` entries from `start`.
    #[verifier::loop_isolation(false)]
    fn read_associations(
        &self,
        id_width: usize,
        width: usize,
        start: usize,
        end: usize,
        count: u32,
    ) -> (raised: Result<u32, Error>)
        requires
            start <= end <= self.bytes@.len(),
            width == 1 || width == 2,
        ensures
            super::heic::outcome(raised, raised->Ok_0 as nat) == association_entries(
                self.bytes@,
                *self.budget,
                id_width as nat,
                width as nat,
                start as int,
                end as int,
                count as nat,
                self.ipma_associations as nat,
            ),
    {
        let mut offset: usize = start;
        let mut total: u32 = self.ipma_associations;
        let mut remaining: u32 = count;
        let ghost whole = association_entries(
            self.bytes@,
            *self.budget,
            id_width as nat,
            width as nat,
            offset as int,
            end as int,
            count as nat,
            total as nat,
        );
        while remaining > 0
            invariant
                offset <= end,
                whole == association_entries(
                    self.bytes@,
                    *self.budget,
                    id_width as nat,
                    width as nat,
                    offset as int,
                    end as int,
                    remaining as nat,
                    total as nat,
                ),
            decreases remaining,
        {
            let length_at: usize = self.advance(offset, id_width, end)?;
            let associations: u8 = self.read_u8(length_at, end)?;
            total =
            charge(
                total,
                associations as u32,
                self.budget.max_container_associations,
                "property association count",
            )?;
            let list: usize = if width == 2 {
                associations as usize * 2
            } else {
                associations as usize
            };
            assert(list == associations * width) by (nonlinear_arith)
                requires
                    width == 2 ==> list == associations * 2,
                    width == 1 ==> list == associations,
                    width == 1 || width == 2,
            ;
            offset = self.advance(length_at + 1, list, end)?;
            remaining -= 1;
        }
        Ok(total)
    }

    /// Reads the file type box so a sequence-brand file is not mistaken for a
    /// file with no metadata.
    #[verifier::loop_isolation(false)]
    fn parse_ftyp(&mut self, header: &Header) -> (result: Result<(), Error>)
        requires
            old(self).wf(),
            header.body_start <= header.body_end <= old(self).bytes@.len(),
        ensures
            final(self).same_source(old(self)),
            final(self).wf(),
            super::heic::outcome(result, final(self)@) == if header.body_end - header.body_start
                < 8 {
                Err(Fault::Container("file type box is truncated"@))
            } else {
                Ok(
                    Tally {
                        sequence_brand: announces_sequence(
                            old(self).bytes@,
                            header.body_start as int,
                            header.body_end as int,
                        ),
                        ..old(self)@
                    },
                )
            },
    {
        let start: usize = header.body_start;
        let end: usize = header.body_end;
        if end - start < 8 {
            return Err(malformed("file type box is truncated"));
        }
        let bytes: &'a [u8] = self.bytes;
        let mut found = is_sequence_brand(be_u32(bytes, start));
        let mut offset: usize = start + 8;
        let mut index: Ghost<int> = Ghost(0);
        while !found && end - offset >= 4
            invariant
                start + 8 <= offset <= end <= bytes@.len(),
                index@ >= 0,
                offset == start + 8 + 4 * index@,
                found ==> announces_sequence(bytes@, start as int, end as int),
                !found ==> !sequence_brand_kind(
                    crate::wire::be(bytes@, start as int, 4) as u32,
                ) && forall|i: int|
                    0 <= i < index@ ==> !sequence_brand_kind(
                        #[trigger] compatible_brand(bytes@, start as int, i),
                    ),
            decreases end - offset,
        {
            found = is_sequence_brand(be_u32(bytes, offset));
            assert(compatible_brand(bytes@, start as int, index@) == crate::wire::be(
                bytes@,
                offset as int,
                4,
            ));
            offset += 4;
            proof {
                index@ = index@ + 1;
            }
        }
        self.sequence_brand = found;
        Ok(())
    }
}

fn is_supported_width(width: usize) -> (answer: bool)
    ensures
        answer == supported_width(width),
{
    width == 0 || width == 4 || width == 8
}

impl<'a> Walk<'a> {
    /// Visits every box from `start` to `end` and counts them.
    #[verifier::loop_isolation(false)]
    fn walk(&mut self, start: usize, end: usize, depth: usize) -> (result: Result<usize, Error>)
        requires
            old(self).wf(),
            start <= end <= old(self).bytes@.len(),
            depth <= start,
        ensures
            final(self).same_source(old(self)),
            final(self).wf(),
            super::heic::outcome(result, (final(self)@, result->Ok_0 as nat)) == walked(
                old(self).bytes@,
                *old(self).budget,
                old(self)@,
                start as int,
                end as int,
                depth as nat,
            ),
        decreases end - start, 0nat,
    {
        let mut offset: usize = start;
        let mut seen: usize = 0;
        let ghost whole = walked(
            self.bytes@,
            *self.budget,
            self@,
            start as int,
            end as int,
            depth as nat,
        );
        while offset < end
            invariant
                start <= offset <= end,
                seen <= offset - start,
                self.wf(),
                self.same_source(old(self)),
                whole == match walked(
                    self.bytes@,
                    *self.budget,
                    self@,
                    offset as int,
                    end as int,
                    depth as nat,
                ) {
                    Err(fault) => Err(fault),
                    Ok((last, rest)) => Ok((last, rest + seen as nat)),
                },
            decreases end - offset,
        {
            let header = self.read_header(offset, end)?;
            self.visit(&header, depth)?;
            offset = header.body_end;
            seen += 1;
        }
        Ok(seen)
    }

    /// Dispatches one box by type and counts it.
    ///
    /// The depth and box ceilings apply here, because the counted parsers
    /// descend through this function as well as through the walk.
    fn visit(&mut self, header: &Header, depth: usize) -> (result: Result<(), Error>)
        requires
            old(self).wf(),
            header.body_start <= header.body_end <= old(self).bytes@.len(),
            depth < header.body_start,
        ensures
            final(self).same_source(old(self)),
            final(self).wf(),
            super::heic::outcome(result, final(self)@) == visited(
                old(self).bytes@,
                *old(self).budget,
                old(self)@,
                header@,
                depth as nat,
            ),
        decreases header.body_end - header.body_start, 1nat,
    {
        if depth as u64 > self.budget.max_container_depth as u64 {
            return Err(Error::Limit("box nesting depth"));
        }
        self.boxes = charge(self.boxes, 1, self.budget.max_container_boxes, "box count")?;
        let start: usize = header.body_start;
        let end: usize = header.body_end;
        let kind: u32 = header.kind;
        if kind == META {
            self.saw_meta = true;
            if end - start < 4 {
                return Err(malformed("box is truncated"));
            }
            self.walk(start + 4, end, depth + 1)?;
            Ok(())
        } else if kind == IINF {
            self.parse_iinf(header, depth)
        } else if kind == INFE {
            self.parse_infe(header)
        } else if kind == ILOC {
            self.parse_iloc(header)
        } else if kind == IREF {
            self.parse_iref(header)
        } else if kind == IPMA {
            self.parse_ipma(header)
        } else if kind == STSD {
            self.parse_stsd(header, depth)
        } else if kind == DREF || kind == URIM {
            // A data reference box carries a full-box header and an entry count
            // before its children, and a URI meta sample entry six reserved
            // bytes and a data reference index.
            if end - start < 8 {
                return Err(malformed("box is truncated"));
            }
            self.walk(start + 8, end, depth + 1)?;
            Ok(())
        } else if kind == TREF {
            self.parse_tref(header)
        } else if kind == FTYP {
            self.parse_ftyp(header)
        } else if kind == MINI {
            self.saw_mini = true;
            Ok(())
        } else if is_container(kind) {
            self.walk(start, end, depth + 1)?;
            Ok(())
        } else if is_visual_sample_entry(kind) {
            self.walk_visual_sample_entry(header, depth)
        } else {
            Ok(())
        }
    }

    /// Walks the children of a visual sample entry.
    ///
    /// The prefix ends with a length-prefixed compressor name. When that length
    /// does not fit the field, the decoder reads children from a different
    /// offset than a well-formed entry places them at, so such an entry is
    /// refused.
    fn walk_visual_sample_entry(&mut self, header: &Header, depth: usize) -> (result: Result<
        (),
        Error,
    >)
        requires
            old(self).wf(),
            header.body_start <= header.body_end <= old(self).bytes@.len(),
            depth < header.body_start,
            visual_kind(header.kind),
        ensures
            final(self).same_source(old(self)),
            final(self).wf(),
            super::heic::outcome(result, final(self)@) == match children_at(
                old(self).bytes@,
                header@,
            )->0 {
                Err(fault) => Err(fault),
                Ok(first) => match walked(
                    old(self).bytes@,
                    *old(self).budget,
                    old(self)@,
                    first,
                    header.body_end as int,
                    depth as nat + 1,
                ) {
                    Err(fault) => Err(fault),
                    Ok((inner, _)) => Ok(inner),
                },
            },
        decreases header.body_end - header.body_start, 0nat,
    {
        let prefix = self.read(header.body_start, VISUAL_SAMPLE_ENTRY_PREFIX, header.body_end)?;
        if prefix[VISUAL_SAMPLE_ENTRY_NAME_LENGTH] > 31 {
            return Err(malformed("sample entry compressor name is too long"));
        }
        self.walk(header.body_start + VISUAL_SAMPLE_ENTRY_PREFIX, header.body_end, depth + 1)?;
        Ok(())
    }

    /// Reads an item information box. The decoder reads at most the declared
    /// number of children and then stops, so the declaration must match the
    /// children actually present.
    fn parse_iinf(&mut self, header: &Header, depth: usize) -> (result: Result<(), Error>)
        requires
            old(self).wf(),
            header.body_start <= header.body_end <= old(self).bytes@.len(),
            depth < header.body_start,
        ensures
            final(self).same_source(old(self)),
            final(self).wf(),
            super::heic::outcome(result, final(self)@) == item_information(
                old(self).bytes@,
                *old(self).budget,
                old(self)@,
                header.body_start as int,
                header.body_end as int,
                depth as nat,
            ),
        decreases header.body_end - header.body_start, 0nat,
    {
        let start: usize = header.body_start;
        let end: usize = header.body_end;
        let version: u8 = self.read_u8(start, end)?;
        let mut offset: usize = past(start, 4)?;
        let declared: u32;
        if version == 0 {
            let narrow: u16 = self.read_u16(offset, end)?;
            declared = narrow as u32;
            offset += 2;
        } else {
            declared = self.read_u32(offset, end)?;
            offset += 4;
        }
        let seen: usize = self.walk(offset, end, depth + 1)?;
        if seen as u64 != declared as u64 {
            return Err(malformed("item information count does not match its entries"));
        }
        Ok(())
    }

    /// Reads a sample description box, visiting each declared entry.
    #[verifier::loop_isolation(false)]
    fn parse_stsd(&mut self, header: &Header, depth: usize) -> (result: Result<(), Error>)
        requires
            old(self).wf(),
            header.body_start <= header.body_end <= old(self).bytes@.len(),
            depth < header.body_start,
        ensures
            final(self).same_source(old(self)),
            final(self).wf(),
            super::heic::outcome(result, final(self)@) == sample_description(
                old(self).bytes@,
                *old(self).budget,
                old(self)@,
                header.body_start as int,
                header.body_end as int,
                depth as nat,
            ),
        decreases header.body_end - header.body_start, 0nat,
    {
        let start: usize = header.body_start;
        let end: usize = header.body_end;
        let version: u8 = self.read_u8(start, end)?;
        if version != 0 {
            return Err(malformed("unsupported sample description version"));
        }
        let count_at: usize = past(start, 4)?;
        let count: u32 = self.read_u32(count_at, end)?;
        let mut offset: usize = count_at + 4;
        let ghost whole = sampled(
            self.bytes@,
            *self.budget,
            self@,
            offset as int,
            end as int,
            depth as nat + 1,
            count as nat,
        );
        let mut remaining: u32 = count;
        while remaining > 0
            invariant
                start + 8 <= offset <= end,
                self.wf(),
                self.same_source(old(self)),
                whole == sampled(
                    self.bytes@,
                    *self.budget,
                    self@,
                    offset as int,
                    end as int,
                    depth as nat + 1,
                    remaining as nat,
                ),
            decreases remaining,
        {
            if offset >= end {
                return Err(malformed("sample description is truncated"));
            }
            let child = self.read_header(offset, end)?;
            self.visit(&child, depth + 1)?;
            offset = child.body_end;
            remaining -= 1;
        }
        Ok(())
    }

    /// Sums the declared extents of every eagerly loaded item.
    ///
    /// An item can be declared by more than one `iloc` box, and the decoder only
    /// reads the record belonging to the metadata box it selects. Charging the
    /// largest record keeps a decoy from hiding the real extent, without
    /// charging a conforming file twice.
    #[verifier::loop_isolation(false)]
    fn check_metadata_bytes(&self) -> (result: Result<(), Error>)
        ensures
            super::heic::outcome(result, ()) == if metadata_bytes(
                self@.metadata_items,
                self@.extents,
            ) > self.budget.max_metadata_bytes {
                Err(Fault::Limit("metadata extent bytes"@))
            } else {
                Ok(())
            },
    {
        let mut total: u64 = 0;
        let mut index: usize = 0;
        while index < self.metadata_items.len()
            invariant
                index <= self.metadata_items@.len(),
                total == metadata_bytes(self.metadata_items@.take(index as int), self.extents@),
            decreases self.metadata_items@.len() - index,
        {
            let id: u32 = self.metadata_items[index];
            let mut largest: u64 = 0;
            let mut at: usize = 0;
            while at < self.extents.len()
                invariant
                    at <= self.extents@.len(),
                    largest == largest_extent(self.extents@.take(at as int), id),
                decreases self.extents@.len() - at,
            {
                let extent = self.extents[at];
                if extent.id == id && extent.bytes > largest {
                    largest = extent.bytes;
                }
                at += 1;
                assert(self.extents@.take(at as int).drop_last() =~= self.extents@.take(at - 1));
            }
            assert(self.extents@.take(at as int) =~= self.extents@);
            index += 1;
            assert(self.metadata_items@.take(index as int).drop_last()
                =~= self.metadata_items@.take(index - 1));
            proof {
                lemma_metadata_bytes_grow(self.metadata_items@, self.extents@, index as int);
            }
            total =
            match total.checked_add(largest) {
                Some(sum) => sum,
                None => return Err(Error::Limit("metadata extent bytes")),
            };
        }
        assert(self.metadata_items@.take(index as int) =~= self.metadata_items@);
        if total > self.budget.max_metadata_bytes {
            return Err(Error::Limit("metadata extent bytes"));
        }
        Ok(())
    }
}

/// A prefix of the items never costs more than all of them.
proof fn lemma_metadata_bytes_grow(items: Seq<u32>, extents: Seq<Extent>, count: int)
    requires
        0 <= count <= items.len(),
    ensures
        metadata_bytes(items.take(count), extents) <= metadata_bytes(items, extents),
    decreases items.len(),
{
    if count == items.len() {
        assert(items.take(count) =~= items);
    } else {
        lemma_metadata_bytes_grow(items.drop_last(), extents, count);
        assert(items.drop_last().take(count) =~= items.take(count));
    }
}

/// Walks the container and enforces `budget` over the whole file.
pub fn preflight(bytes: &[u8], budget: &Budget) -> (result: Result<(), Error>)
    ensures
        match inspected(bytes@, *budget) {
            Ok(_) => result is Ok,
            Err(fault) => result matches Err(error) && error@ == fault,
        },
{
    let mut walk = Walk {
        bytes,
        budget,
        items: 0,
        iloc_records: 0,
        iref_references: 0,
        ipma_entries: 0,
        ipma_associations: 0,
        boxes: 0,
        metadata_items: Vec::new(),
        extents: Vec::new(),
        saw_meta: false,
        saw_mini: false,
        sequence_brand: false,
    };
    assert(walk@ =~= empty_tally());
    walk.walk(0, bytes.len(), 0)?;
    if !walk.saw_meta && !walk.saw_mini && !walk.sequence_brand {
        return Err(malformed("no metadata box"));
    }
    walk.check_metadata_bytes()
}

// ---------------------------------------------------------------------------
// Laws
// ---------------------------------------------------------------------------

/// Every aggregate the walk counts is inside the budget, and no item is charged
/// twice.
pub open spec fn within(tally: Tally, budget: Budget) -> bool {
    &&& tally.items <= budget.max_container_items
    &&& tally.iloc_records <= budget.max_container_items
    &&& tally.iref_references <= budget.max_container_items
    &&& tally.ipma_entries <= budget.max_container_items
    &&& tally.ipma_associations <= budget.max_container_associations
    &&& tally.boxes <= budget.max_container_boxes
    &&& tally.metadata_items.len() <= budget.max_metadata_items
    &&& tally.metadata_items.no_duplicates()
}

proof fn lemma_references_within(
    bytes: Seq<u8>,
    budget: Budget,
    id_size: nat,
    offset: int,
    end: int,
    total: nat,
)
    requires
        total <= budget.max_container_items,
    ensures
        reference_lists(bytes, budget, id_size, offset, end, total) matches Ok(raised) ==> raised
            <= budget.max_container_items,
    decreases end - offset,
{
    if offset < end && header_at(bytes, offset, end) is Ok {
        let child = header_at(bytes, offset, end)->Ok_0;
        let count = field(bytes, child.start + id_size, 2, child.end);
        if count is Ok && total + count->Ok_0 <= budget.max_container_items {
            lemma_references_within(
                bytes,
                budget,
                id_size,
                child.end,
                end,
                total + count->Ok_0,
            );
        }
    }
}

proof fn lemma_track_lists_within(
    bytes: Seq<u8>,
    budget: Budget,
    offset: int,
    end: int,
    total: nat,
)
    requires
        total <= budget.max_container_items,
    ensures
        track_lists(bytes, budget, offset, end, total) matches Ok(raised) ==> raised
            <= budget.max_container_items,
    decreases end - offset,
{
    if offset < end && header_at(bytes, offset, end) is Ok {
        let child = header_at(bytes, offset, end)->Ok_0;
        let count = ((child.end - child.start) / 4) as nat;
        if total + count <= budget.max_container_items {
            lemma_track_lists_within(bytes, budget, child.end, end, total + count);
        }
    }
}

proof fn lemma_associations_within(
    bytes: Seq<u8>,
    budget: Budget,
    id_width: nat,
    width: nat,
    offset: int,
    end: int,
    count: nat,
    total: nat,
)
    requires
        total <= budget.max_container_associations,
    ensures
        association_entries(bytes, budget, id_width, width, offset, end, count, total) matches Ok(
            raised,
        ) ==> raised <= budget.max_container_associations,
    decreases count,
{
    if count > 0 && offset + id_width <= end {
        let length = field(bytes, offset + id_width, 1, end);
        if length is Ok && total + length->Ok_0 <= budget.max_container_associations {
            lemma_associations_within(
                bytes,
                budget,
                id_width,
                width,
                offset + id_width + 1 + length->Ok_0 * width,
                end,
                (count - 1) as nat,
                total + length->Ok_0,
            );
        }
    }
}

proof fn lemma_visited_within(
    bytes: Seq<u8>,
    budget: Budget,
    tally: Tally,
    header: Region,
    depth: nat,
)
    requires
        within(tally, budget),
        header.start <= header.end,
    ensures
        visited(bytes, budget, tally, header, depth) matches Ok(inner) ==> within(inner, budget),
    decreases header.end - header.start, 1nat,
{
    let start = header.start;
    let end = header.end;
    let counted = Tally {
        boxes: tally.boxes + 1,
        saw_meta: tally.saw_meta || header.kind == META,
        saw_mini: tally.saw_mini || header.kind == MINI,
        ..tally
    };
    if depth <= budget.max_container_depth && tally.boxes + 1 <= budget.max_container_boxes {
        assert(within(counted, budget));
        if header.kind == IINF {
            let version = field(bytes, start, 1, end);
            let width: nat = if version->Ok_0 == 0 {
                2
            } else {
                4
            };
            if version is Ok && field(bytes, start + 4, width, end) is Ok {
                lemma_walked_within(bytes, budget, counted, start + 4 + width, end, depth + 1);
            }
        } else if header.kind == STSD {
            let count = field(bytes, start + 4, 4, end);
            if count is Ok {
                lemma_sampled_within(
                    bytes,
                    budget,
                    counted,
                    start + 8,
                    end,
                    depth + 1,
                    count->Ok_0,
                );
            }
        } else if header.kind == INFE {
            if item_entry(bytes, start, end) is Ok {
                let entry = item_entry(bytes, start, end)->Ok_0;
                let grown = tally.metadata_items.push(entry.id);
                if !tally.metadata_items.contains(entry.id) {
                    assert(grown.no_duplicates());
                }
            }
        } else if header.kind == IREF {
            lemma_references_within(bytes, budget, 2, start + 4, end, counted.iref_references);
            lemma_references_within(bytes, budget, 4, start + 4, end, counted.iref_references);
        } else if header.kind == IPMA {
            let version = field(bytes, start, 1, end);
            let flags = field(bytes, start + 3, 1, end);
            let count = field(bytes, start + 4, 4, end);
            if version is Ok && flags is Ok && count is Ok {
                lemma_associations_within(
                    bytes,
                    budget,
                    if version->Ok_0 < 1 {
                        2
                    } else {
                        4
                    },
                    if flags->Ok_0 % 2 != 0 {
                        2
                    } else {
                        1
                    },
                    start + 8,
                    end,
                    count->Ok_0,
                    counted.ipma_associations,
                );
            }
        } else if header.kind == TREF {
            lemma_track_lists_within(bytes, budget, start, end, counted.iref_references);
        } else if header.kind != ILOC && header.kind != FTYP {
            if let Some(Ok(first)) = children_at(bytes, header) {
                lemma_walked_within(bytes, budget, counted, first, end, depth + 1);
            }
        }
    }
}

proof fn lemma_walked_within(
    bytes: Seq<u8>,
    budget: Budget,
    tally: Tally,
    offset: int,
    end: int,
    depth: nat,
)
    requires
        within(tally, budget),
    ensures
        walked(bytes, budget, tally, offset, end, depth) matches Ok((last, _)) ==> within(
            last,
            budget,
        ),
    decreases end - offset, 0nat,
{
    if offset < end && header_at(bytes, offset, end) is Ok {
        let header = header_at(bytes, offset, end)->Ok_0;
        lemma_visited_within(bytes, budget, tally, header, depth);
        if let Ok(inner) = visited(bytes, budget, tally, header, depth) {
            lemma_walked_within(bytes, budget, inner, header.end, end, depth);
        }
    }
}

proof fn lemma_sampled_within(
    bytes: Seq<u8>,
    budget: Budget,
    tally: Tally,
    offset: int,
    end: int,
    depth: nat,
    count: nat,
)
    requires
        within(tally, budget),
    ensures
        sampled(bytes, budget, tally, offset, end, depth, count) matches Ok(last) ==> within(
            last,
            budget,
        ),
    decreases end - offset, 0nat,
{
    if count > 0 && offset < end && header_at(bytes, offset, end) is Ok {
        let header = header_at(bytes, offset, end)->Ok_0;
        lemma_visited_within(bytes, budget, tally, header, depth);
        if let Ok(inner) = visited(bytes, budget, tally, header, depth) {
            lemma_sampled_within(
                bytes,
                budget,
                inner,
                header.end,
                end,
                depth,
                (count - 1) as nat,
            );
        }
    }
}

/// A container that is accepted satisfies every aggregate ceiling over the
/// whole file, loads at most the budgeted metadata bytes, and carries a
/// metadata box, a minimised image, or a sequence brand.
pub proof fn law_accepted_containers_are_within_budget(bytes: Seq<u8>, budget: Budget)
    ensures
        inspected(bytes, budget) matches Ok(tally) ==> {
            &&& within(tally, budget)
            &&& metadata_bytes(tally.metadata_items, tally.extents) <= budget.max_metadata_bytes
            &&& tally.saw_meta || tally.saw_mini || tally.sequence_brand
        },
{
    lemma_walked_within(bytes, budget, empty_tally(), 0, bytes.len() as int, 0);
}

/// Whether every ceiling of `narrow` is at most the same ceiling of `wide`.
pub open spec fn no_wider(narrow: Budget, wide: Budget) -> bool {
    &&& narrow.max_container_items <= wide.max_container_items
    &&& narrow.max_container_associations <= wide.max_container_associations
    &&& narrow.max_metadata_items <= wide.max_metadata_items
    &&& narrow.max_metadata_bytes <= wide.max_metadata_bytes
    &&& narrow.max_container_boxes <= wide.max_container_boxes
    &&& narrow.max_container_depth <= wide.max_container_depth
    &&& narrow.max_item_extents <= wide.max_item_extents
}

proof fn lemma_locations_widen(
    bytes: Seq<u8>,
    narrow: Budget,
    wide: Budget,
    layout: Layout,
    offset: int,
    end: int,
    count: nat,
    extents: Seq<Extent>,
)
    requires
        no_wider(narrow, wide),
    ensures
        locations(bytes, narrow, layout, offset, end, count, extents) is Ok ==> locations(
            bytes,
            narrow,
            layout,
            offset,
            end,
            count,
            extents,
        ) == locations(bytes, wide, layout, offset, end, count, extents),
    decreases count,
{
    if count > 0 {
        if let Ok((extent, next)) = location_at(bytes, narrow, layout, offset, end) {
            assert(location_at(bytes, wide, layout, offset, end) == location_at(
                bytes,
                narrow,
                layout,
                offset,
                end,
            ));
            lemma_locations_widen(
                bytes,
                narrow,
                wide,
                layout,
                next,
                end,
                (count - 1) as nat,
                extents.push(extent),
            );
        }
    }
}

proof fn lemma_references_widen(
    bytes: Seq<u8>,
    narrow: Budget,
    wide: Budget,
    id_size: nat,
    offset: int,
    end: int,
    total: nat,
)
    requires
        no_wider(narrow, wide),
    ensures
        reference_lists(bytes, narrow, id_size, offset, end, total) is Ok ==> reference_lists(
            bytes,
            narrow,
            id_size,
            offset,
            end,
            total,
        ) == reference_lists(bytes, wide, id_size, offset, end, total),
    decreases end - offset,
{
    if offset < end && header_at(bytes, offset, end) is Ok {
        let child = header_at(bytes, offset, end)->Ok_0;
        let count = field(bytes, child.start + id_size, 2, child.end);
        if count is Ok {
            lemma_references_widen(
                bytes,
                narrow,
                wide,
                id_size,
                child.end,
                end,
                total + count->Ok_0,
            );
        }
    }
}

proof fn lemma_track_lists_widen(
    bytes: Seq<u8>,
    narrow: Budget,
    wide: Budget,
    offset: int,
    end: int,
    total: nat,
)
    requires
        no_wider(narrow, wide),
    ensures
        track_lists(bytes, narrow, offset, end, total) is Ok ==> track_lists(
            bytes,
            narrow,
            offset,
            end,
            total,
        ) == track_lists(bytes, wide, offset, end, total),
    decreases end - offset,
{
    if offset < end && header_at(bytes, offset, end) is Ok {
        let child = header_at(bytes, offset, end)->Ok_0;
        lemma_track_lists_widen(
            bytes,
            narrow,
            wide,
            child.end,
            end,
            total + ((child.end - child.start) / 4) as nat,
        );
    }
}

proof fn lemma_associations_widen(
    bytes: Seq<u8>,
    narrow: Budget,
    wide: Budget,
    id_width: nat,
    width: nat,
    offset: int,
    end: int,
    count: nat,
    total: nat,
)
    requires
        no_wider(narrow, wide),
    ensures
        association_entries(bytes, narrow, id_width, width, offset, end, count, total) is Ok
            ==> association_entries(bytes, narrow, id_width, width, offset, end, count, total)
            == association_entries(bytes, wide, id_width, width, offset, end, count, total),
    decreases count,
{
    if count > 0 && offset + id_width <= end {
        let length = field(bytes, offset + id_width, 1, end);
        if length is Ok {
            lemma_associations_widen(
                bytes,
                narrow,
                wide,
                id_width,
                width,
                offset + id_width + 1 + length->Ok_0 * width,
                end,
                (count - 1) as nat,
                total + length->Ok_0,
            );
        }
    }
}

proof fn lemma_visited_widen(
    bytes: Seq<u8>,
    narrow: Budget,
    wide: Budget,
    tally: Tally,
    header: Region,
    depth: nat,
)
    requires
        no_wider(narrow, wide),
        header.start <= header.end,
    ensures
        visited(bytes, narrow, tally, header, depth) is Ok ==> visited(
            bytes,
            narrow,
            tally,
            header,
            depth,
        ) == visited(bytes, wide, tally, header, depth),
    decreases header.end - header.start, 1nat,
{
    let start = header.start;
    let end = header.end;
    let counted = Tally {
        boxes: tally.boxes + 1,
        saw_meta: tally.saw_meta || header.kind == META,
        saw_mini: tally.saw_mini || header.kind == MINI,
        ..tally
    };
    if visited(bytes, narrow, tally, header, depth) is Ok {
        if header.kind == IINF {
            let version = field(bytes, start, 1, end);
            let width: nat = if version->Ok_0 == 0 {
                2
            } else {
                4
            };
            lemma_walked_widen(bytes, narrow, wide, counted, start + 4 + width, end, depth + 1);
        } else if header.kind == STSD {
            let count = field(bytes, start + 4, 4, end);
            lemma_sampled_widen(
                bytes,
                narrow,
                wide,
                counted,
                start + 8,
                end,
                depth + 1,
                count->Ok_0,
            );
        } else if header.kind == ILOC {
            let version = field(bytes, start, 1, end)->Ok_0;
            let widths = field(bytes, start + 4, 2, end)->Ok_0;
            let layout = layout_of(version as u8, widths as u16);
            let count_width: nat = if version < 2 {
                2
            } else {
                4
            };
            let count = field(bytes, start + 6, count_width, end)->Ok_0;
            lemma_locations_widen(
                bytes,
                narrow,
                wide,
                layout,
                start + 6 + count_width,
                end,
                count,
                counted.extents,
            );
        } else if header.kind == IREF {
            lemma_references_widen(
                bytes,
                narrow,
                wide,
                2,
                start + 4,
                end,
                counted.iref_references,
            );
            lemma_references_widen(
                bytes,
                narrow,
                wide,
                4,
                start + 4,
                end,
                counted.iref_references,
            );
        } else if header.kind == IPMA {
            let version = field(bytes, start, 1, end)->Ok_0;
            let flags = field(bytes, start + 3, 1, end)->Ok_0;
            let count = field(bytes, start + 4, 4, end)->Ok_0;
            lemma_associations_widen(
                bytes,
                narrow,
                wide,
                if version < 1 {
                    2
                } else {
                    4
                },
                if flags % 2 != 0 {
                    2
                } else {
                    1
                },
                start + 8,
                end,
                count,
                counted.ipma_associations,
            );
        } else if header.kind == TREF {
            lemma_track_lists_widen(bytes, narrow, wide, start, end, counted.iref_references);
        } else if header.kind != INFE && header.kind != FTYP {
            if let Some(Ok(first)) = children_at(bytes, header) {
                lemma_walked_widen(bytes, narrow, wide, counted, first, end, depth + 1);
            }
        }
    }
}

proof fn lemma_walked_widen(
    bytes: Seq<u8>,
    narrow: Budget,
    wide: Budget,
    tally: Tally,
    offset: int,
    end: int,
    depth: nat,
)
    requires
        no_wider(narrow, wide),
    ensures
        walked(bytes, narrow, tally, offset, end, depth) is Ok ==> walked(
            bytes,
            narrow,
            tally,
            offset,
            end,
            depth,
        ) == walked(bytes, wide, tally, offset, end, depth),
    decreases end - offset, 0nat,
{
    if offset < end && header_at(bytes, offset, end) is Ok {
        let header = header_at(bytes, offset, end)->Ok_0;
        lemma_visited_widen(bytes, narrow, wide, tally, header, depth);
        if let Ok(inner) = visited(bytes, narrow, tally, header, depth) {
            lemma_walked_widen(bytes, narrow, wide, inner, header.end, end, depth);
        }
    }
}

proof fn lemma_sampled_widen(
    bytes: Seq<u8>,
    narrow: Budget,
    wide: Budget,
    tally: Tally,
    offset: int,
    end: int,
    depth: nat,
    count: nat,
)
    requires
        no_wider(narrow, wide),
    ensures
        sampled(bytes, narrow, tally, offset, end, depth, count) is Ok ==> sampled(
            bytes,
            narrow,
            tally,
            offset,
            end,
            depth,
            count,
        ) == sampled(bytes, wide, tally, offset, end, depth, count),
    decreases end - offset, 0nat,
{
    if count > 0 && offset < end && header_at(bytes, offset, end) is Ok {
        let header = header_at(bytes, offset, end)->Ok_0;
        lemma_visited_widen(bytes, narrow, wide, tally, header, depth);
        if let Ok(inner) = visited(bytes, narrow, tally, header, depth) {
            lemma_sampled_widen(
                bytes,
                narrow,
                wide,
                inner,
                header.end,
                end,
                depth,
                (count - 1) as nat,
            );
        }
    }
}

/// Raising a ceiling never turns an accepted container away, and never changes
/// what is counted in it.
pub proof fn law_a_wider_budget_accepts_the_same_container(
    bytes: Seq<u8>,
    narrow: Budget,
    wide: Budget,
)
    requires
        no_wider(narrow, wide),
    ensures
        inspected(bytes, narrow) is Ok ==> inspected(bytes, wide) == inspected(bytes, narrow),
{
    lemma_walked_widen(bytes, narrow, wide, empty_tally(), 0, bytes.len() as int, 0);
}

/// Whether a box is one of those laid out from `offset` to `end`. Only the first
/// `count` of them are looked at, or all where `count` is negative.
pub open spec fn laid_out(bytes: Seq<u8>, offset: int, end: int, count: int, found: Region) -> bool
    decreases end - offset,
{
    offset < end && count != 0 && match header_at(bytes, offset, end) {
        Ok(header) => header == found || laid_out(bytes, header.end, end, count - 1, found),
        Err(_) => false,
    }
}

/// Where the boxes inside a box start, and how many of them are looked at, a negative
/// number standing for all.
pub open spec fn inside(bytes: Seq<u8>, header: Region) -> Option<(int, int)> {
    let start = header.start;
    let end = header.end;
    if header.kind == IINF {
        match field(bytes, start, 1, end) {
            Ok(version) => Some(
                (
                    start + 4 + (if version == 0 {
                        2int
                    } else {
                        4int
                    }),
                    -1,
                ),
            ),
            Err(_) => None,
        }
    } else if header.kind == STSD {
        match field(bytes, start + 4, 4, end) {
            Ok(count) => Some((start + 8, count as int)),
            Err(_) => None,
        }
    } else if header.kind == INFE || header.kind == ILOC || header.kind == IREF || header.kind
        == IPMA || header.kind == TREF || header.kind == FTYP {
        None
    } else {
        match children_at(bytes, header) {
            Some(Ok(first)) => Some((first, -1)),
            _ => None,
        }
    }
}

/// Whether a box lies inside another.
pub open spec fn nested(bytes: Seq<u8>, outer: Region, inner: Region) -> bool {
    inside(bytes, outer) matches Some((first, count)) && laid_out(
        bytes,
        first,
        outer.end,
        count,
        inner,
    )
}

proof fn lemma_walked_visits(
    bytes: Seq<u8>,
    budget: Budget,
    tally: Tally,
    offset: int,
    end: int,
    depth: nat,
    count: int,
    found: Region,
) -> (seen: Tally)
    requires
        walked(bytes, budget, tally, offset, end, depth) is Ok,
        count < 0,
        laid_out(bytes, offset, end, count, found),
    ensures
        visited(bytes, budget, seen, found, depth) is Ok,
    decreases end - offset,
{
    let header = header_at(bytes, offset, end)->Ok_0;
    if header == found {
        tally
    } else {
        let inner = visited(bytes, budget, tally, header, depth)->Ok_0;
        lemma_walked_visits(bytes, budget, inner, header.end, end, depth, count - 1, found)
    }
}

proof fn lemma_sampled_visits(
    bytes: Seq<u8>,
    budget: Budget,
    tally: Tally,
    offset: int,
    end: int,
    depth: nat,
    count: nat,
    found: Region,
) -> (seen: Tally)
    requires
        sampled(bytes, budget, tally, offset, end, depth, count) is Ok,
        laid_out(bytes, offset, end, count as int, found),
    ensures
        visited(bytes, budget, seen, found, depth) is Ok,
    decreases end - offset,
{
    let header = header_at(bytes, offset, end)->Ok_0;
    if header == found {
        tally
    } else {
        let inner = visited(bytes, budget, tally, header, depth)->Ok_0;
        lemma_sampled_visits(
            bytes,
            budget,
            inner,
            header.end,
            end,
            depth,
            (count - 1) as nat,
            found,
        )
    }
}

proof fn lemma_visits_go_on(
    bytes: Seq<u8>,
    budget: Budget,
    tally: Tally,
    outer: Region,
    depth: nat,
    inner: Region,
) -> (seen: Tally)
    requires
        visited(bytes, budget, tally, outer, depth) is Ok,
        nested(bytes, outer, inner),
    ensures
        visited(bytes, budget, seen, inner, depth + 1) is Ok,
{
    let (first, count) = inside(bytes, outer)->Some_0;
    let counted = Tally {
        boxes: tally.boxes + 1,
        saw_meta: tally.saw_meta || outer.kind == META,
        saw_mini: tally.saw_mini || outer.kind == MINI,
        ..tally
    };
    if outer.kind == STSD {
        lemma_sampled_visits(
            bytes,
            budget,
            counted,
            first,
            outer.end,
            depth + 1,
            count as nat,
            inner,
        )
    } else {
        lemma_walked_visits(bytes, budget, counted, first, outer.end, depth + 1, count, inner)
    }
}

proof fn lemma_chain_visits(
    bytes: Seq<u8>,
    budget: Budget,
    chain: Seq<Region>,
    index: int,
) -> (seen: Tally)
    requires
        inspected(bytes, budget) is Ok,
        0 <= index < chain.len(),
        laid_out(bytes, 0, bytes.len() as int, -1, chain[0]),
        forall|at: int|
            0 <= at < chain.len() - 1 ==> #[trigger] nested(bytes, chain[at], chain[at + 1]),
    ensures
        visited(bytes, budget, seen, chain[index], index as nat) is Ok,
    decreases index,
{
    if index == 0 {
        lemma_walked_visits(
            bytes,
            budget,
            empty_tally(),
            0,
            bytes.len() as int,
            0,
            -1,
            chain[0],
        )
    } else {
        let before = lemma_chain_visits(bytes, budget, chain, index - 1);
        assert(nested(bytes, chain[index - 1], chain[index - 1 + 1]));
        lemma_visits_go_on(
            bytes,
            budget,
            before,
            chain[index - 1],
            (index - 1) as nat,
            chain[index],
        )
    }
}

/// In a container that is accepted no box lies deeper than the ceiling on nesting,
/// the boxes of the file itself being at depth zero.
pub proof fn law_accepted_containers_are_not_too_deep(
    bytes: Seq<u8>,
    budget: Budget,
    chain: Seq<Region>,
)
    requires
        inspected(bytes, budget) is Ok,
        chain.len() > 0,
        laid_out(bytes, 0, bytes.len() as int, -1, chain[0]),
        forall|at: int|
            0 <= at < chain.len() - 1 ==> #[trigger] nested(bytes, chain[at], chain[at + 1]),
    ensures
        chain.len() <= budget.max_container_depth + 1,
{
    let seen = lemma_chain_visits(bytes, budget, chain, chain.len() - 1);
}

} // verus!
