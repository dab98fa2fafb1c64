//! Structural preflight for embedded ICC profiles.
//!
//! The profile parser bounds each tag against its own extent but not the sum
//! across tags or across the records inside one tag, so a profile that fits the
//! byte ceiling can still make it materialize far more memory than the profile
//! occupies. This walk establishes the extent, the tag count, the bounds of
//! every tag, and the decoded text and record budgets before the parser runs.

use vstd::prelude::*;

use super::heic::{Error, Fault, Limits};
use crate::wire::be_u32;

verus! {

/// Bytes of the profile header, which the tag count follows.
pub const HEADER_BYTES: usize = 128;

/// Bytes of one entry in the tag table.
pub const TAG_ENTRY_BYTES: usize = 12;

/// `mluc`: localized text records.
pub const MLUC: u32 = 0x6d6c_7563;

/// `desc`: an ASCII and a Unicode description.
pub const DESC: u32 = 0x6465_7363;

/// `text`: plain text.
pub const TEXT: u32 = 0x7465_7874;

/// The text the profile parser has been charged for so far.
#[derive(Clone, Copy, Debug)]
pub struct TextCharge {
    /// Decoded bytes.
    pub bytes: usize,
    /// Localization records.
    pub records: usize,
}

// ---------------------------------------------------------------------------
// Model
// ---------------------------------------------------------------------------

/// The most UTF-8 bytes a UTF-16 payload of `bytes` decodes to: three for each
/// two-byte unit.
pub open spec fn utf16_bound(bytes: int) -> int {
    (if 3 * bytes > usize::MAX {
        usize::MAX as int
    } else {
        3 * bytes
    }) / 2
}

/// The most UTF-8 bytes a lossy conversion of `bytes` produces: three for each
/// byte that is not valid.
pub open spec fn lossy_bound(bytes: int) -> int {
    if 3 * bytes > usize::MAX {
        usize::MAX as int
    } else {
        3 * bytes
    }
}

/// `charge` with `decoded` more bytes.
pub open spec fn with_bytes(charge: TextCharge, decoded: int, limits: Limits) -> Result<
    TextCharge,
    Fault,
> {
    if charge.bytes + decoded > limits.max_color_profile_text_bytes {
        Err(Fault::UnsupportedColor("embedded ICC profile text size"@))
    } else {
        Ok(TextCharge { bytes: (charge.bytes + decoded) as usize, ..charge })
    }
}

/// `charge` with one more record.
pub open spec fn with_record(charge: TextCharge, limits: Limits) -> Result<TextCharge, Fault> {
    let records = if charge.records == usize::MAX {
        usize::MAX
    } else {
        (charge.records + 1) as usize
    };
    if records > limits.max_color_profile_text_records {
        Err(Fault::UnsupportedColor("embedded ICC profile text records"@))
    } else {
        Ok(TextCharge { records, ..charge })
    }
}

/// One localization record. `None` when its range leaves the tag, which is
/// where the profile parser stops.
pub open spec fn record_charged(
    tag: Seq<u8>,
    offset: int,
    length: int,
    charge: TextCharge,
    limits: Limits,
) -> Result<Option<TextCharge>, Fault> {
    if offset + length > tag.len() {
        Ok(None)
    } else {
        match with_record(charge, limits) {
            Err(fault) => Err(fault),
            Ok(counted) => match with_bytes(counted, utf16_bound(length), limits) {
                Err(fault) => Err(fault),
                Ok(total) => Ok(Some(total)),
            },
        }
    }
}

/// Localization records `record..count`. Record `n` has its length and offset
/// in the last eight of the twelve bytes from `16 + 12 * n`.
pub open spec fn records_charged(
    tag: Seq<u8>,
    record: nat,
    count: nat,
    charge: TextCharge,
    limits: Limits,
) -> Result<TextCharge, Fault>
    decreases count - record,
{
    let at = 16int + 12 * record;
    if record >= count || at + 12 > tag.len() {
        Ok(charge)
    } else {
        match record_charged(
            tag,
            crate::wire::be(tag, at + 8, 4) as int,
            crate::wire::be(tag, at + 4, 4) as int,
            charge,
            limits,
        ) {
            Err(fault) => Err(fault),
            Ok(None) => Ok(charge),
            Ok(Some(total)) => records_charged(tag, record + 1, count, total, limits),
        }
    }
}

/// The text that one text-typed tag makes the profile parser allocate.
pub open spec fn text_charged(tag: Seq<u8>, charge: TextCharge, limits: Limits) -> Result<
    TextCharge,
    Fault,
> {
    let kind = crate::wire::be(tag, 0, 4);
    let declared = crate::wire::be(tag, 8, 4);
    if kind == MLUC {
        // The parser reads the first record even when the tag declares none.
        let count = if declared == 0 {
            1
        } else {
            declared
        };
        if tag.len() < 28 {
            Ok(charge)
        } else {
            records_charged(tag, 0, count, charge, limits)
        }
    } else if kind == DESC {
        let ascii_end = 12int + declared;
        let units = crate::wire::be(tag, ascii_end + 4, 4);
        if tag.len() < 12 || ascii_end > tag.len() {
            Ok(charge)
        } else {
            match with_bytes(charge, lossy_bound(declared as int), limits) {
                Err(fault) => Err(fault),
                Ok(ascii) => if ascii_end + 8 > tag.len() {
                    Ok(ascii)
                } else {
                    match with_record(ascii, limits) {
                        Err(fault) => Err(fault),
                        Ok(counted) => if ascii_end + 8 + units * 2 > tag.len() {
                            Ok(counted)
                        } else {
                            with_bytes(counted, utf16_bound(units as int * 2), limits)
                        },
                    }
                },
            }
        }
    } else {
        with_bytes(
            charge,
            lossy_bound(
                if tag.len() < 8 {
                    0
                } else {
                    tag.len() - 8
                },
            ),
            limits,
        )
    }
}

/// Whether a tag's payload is read as text.
pub open spec fn text_tag(tag: Seq<u8>) -> bool {
    tag.len() >= 4 && {
        let kind = crate::wire::be(tag, 0, 4);
        kind == MLUC || kind == DESC || kind == TEXT
    }
}

/// Tags `index..count` of the table. A size of zero means the tag runs to the
/// end of the profile.
pub open spec fn tags_charged(
    bytes: Seq<u8>,
    index: nat,
    count: nat,
    charge: TextCharge,
    limits: Limits,
) -> Result<TextCharge, Fault>
    decreases count - index,
{
    let entry = HEADER_BYTES + 4 + index * TAG_ENTRY_BYTES;
    let offset = crate::wire::be(bytes, entry + 4, 4);
    let size = crate::wire::be(bytes, entry + 8, 4);
    let end = if size == 0 {
        bytes.len()
    } else {
        offset + size
    };
    if index >= count {
        Ok(charge)
    } else if offset > bytes.len() || end > bytes.len() {
        Err(Fault::UnsupportedColor("malformed embedded ICC profile"@))
    } else {
        let tag = bytes.subrange(offset as int, end as int);
        if !text_tag(tag) {
            tags_charged(bytes, index + 1, count, charge, limits)
        } else {
            match text_charged(tag, charge, limits) {
                Err(fault) => Err(fault),
                Ok(total) => tags_charged(bytes, index + 1, count, total, limits),
            }
        }
    }
}

/// The verdict on a whole profile: the text it costs, or why it is refused.
pub open spec fn profile_charged(bytes: Seq<u8>, limits: Limits) -> Result<TextCharge, Fault> {
    let count = crate::wire::be(bytes, HEADER_BYTES as int, 4);
    if bytes.len() < HEADER_BYTES + 4 {
        Err(Fault::UnsupportedColor("malformed embedded ICC profile"@))
    } else if crate::wire::be(bytes, 0, 4) != bytes.len() {
        Err(Fault::UnsupportedColor("embedded ICC profile extent"@))
    } else if count > limits.max_color_profile_tags {
        Err(Fault::UnsupportedColor("embedded ICC profile tag count"@))
    } else if HEADER_BYTES + 4 + count * TAG_ENTRY_BYTES > bytes.len() {
        Err(Fault::UnsupportedColor("malformed embedded ICC profile"@))
    } else {
        tags_charged(bytes, 0, count, TextCharge { bytes: 0, records: 0 }, limits)
    }
}

// ---------------------------------------------------------------------------
// Execution
// ---------------------------------------------------------------------------

/// Upper bound on the UTF-8 bytes a UTF-16 payload of `bytes` decodes to.
pub fn utf16_text_bound(bytes: usize) -> (bound: usize)
    ensures
        bound == utf16_bound(bytes as int),
{
    match bytes.checked_mul(3) {
        Some(tripled) => tripled / 2,
        None => usize::MAX / 2,
    }
}

/// Upper bound on the UTF-8 bytes a lossy UTF-8 conversion of `bytes` produces.
pub fn lossy_text_bound(bytes: usize) -> (bound: usize)
    ensures
        bound == lossy_bound(bytes as int),
{
    match bytes.checked_mul(3) {
        Some(tripled) => tripled,
        None => usize::MAX,
    }
}

/// Adds one decoded size to the text total.
pub fn charge_icc_text_bytes(decoded: usize, charge: TextCharge, limits: &Limits) -> (result:
    Result<TextCharge, Error>)
    ensures
        super::heic::outcome(result, result->Ok_0) == with_bytes(charge, decoded as int, *limits),
{
    match charge.bytes.checked_add(decoded) {
        Some(bytes) => if bytes > limits.max_color_profile_text_bytes {
            Err(Error::UnsupportedColor("embedded ICC profile text size"))
        } else {
            Ok(TextCharge { bytes, records: charge.records })
        },
        None => Err(Error::UnsupportedColor("embedded ICC profile text size")),
    }
}

fn charge_icc_record_count(charge: TextCharge, limits: &Limits) -> (result: Result<
    TextCharge,
    Error,
>)
    ensures
        super::heic::outcome(result, result->Ok_0) == with_record(charge, *limits),
{
    let records: usize = charge.records.saturating_add(1);
    if records > limits.max_color_profile_text_records {
        return Err(Error::UnsupportedColor("embedded ICC profile text records"));
    }
    Ok(TextCharge { bytes: charge.bytes, records })
}

/// Charges one localization record, or reports that the parser would not read
/// it.
pub fn charge_icc_record(
    tag: &[u8],
    offset: u32,
    length: u32,
    charge: TextCharge,
    limits: &Limits,
) -> (result: Result<Option<TextCharge>, Error>)
    ensures
        super::heic::outcome(result, result->Ok_0) == record_charged(
            tag@,
            offset as int,
            length as int,
            charge,
            *limits,
        ),
{
    let size: usize = tag.len();
    match (offset as usize).checked_add(length as usize) {
        Some(end) => if end > size {
            return Ok(None);
        },
        None => return Ok(None),
    }
    let counted = charge_icc_record_count(charge, limits)?;
    let total = charge_icc_text_bytes(utf16_text_bound(length as usize), counted, limits)?;
    Ok(Some(total))
}

/// Charges the text one tag will make the profile parser allocate.
///
/// The accounting charges decoded sizes rather than encoded ones, stops where
/// the parser stops, counts each record once even when several records
/// reference the same bytes, and counts records separately from bytes because
/// the parser keeps strings per record whatever length the record declares.
#[verifier::loop_isolation(false)]
pub fn charge_icc_text(tag: &[u8], charge: TextCharge, limits: &Limits) -> (result: Result<
    TextCharge,
    Error,
>)
    requires
        tag@.len() >= 4,
    ensures
        super::heic::outcome(result, result->Ok_0) == text_charged(tag@, charge, *limits),
{
    let kind: u32 = be_u32(tag, 0);
    if kind == MLUC {
        if tag.len() < 28 {
            return Ok(charge);
        }
        let declared: u32 = be_u32(tag, 8);
        let count: u32 = if declared == 0 {
            1
        } else {
            declared
        };
        let mut total = charge;
        let mut record: u32 = 0;
        let mut at: usize = 16;
        while record < count && tag.len() - at >= 12
            invariant
                at <= tag@.len(),
                record <= count,
                at == 16 + 12 * record,
                records_charged(tag@, 0, count as nat, charge, *limits) == records_charged(
                    tag@,
                    record as nat,
                    count as nat,
                    total,
                    *limits,
                ),
            decreases count - record,
        {
            let length: u32 = be_u32(tag, at + 4);
            let offset: u32 = be_u32(tag, at + 8);
            match charge_icc_record(tag, offset, length, total, limits)? {
                Some(next) => {
                    total = next;
                },
                None => return Ok(total),
            }
            at += 12;
            record += 1;
        }
        Ok(total)
    } else if kind == DESC {
        if tag.len() < 12 {
            return Ok(charge);
        }
        let ascii: usize = be_u32(tag, 8) as usize;
        if ascii > tag.len() - 12 {
            return Ok(charge);
        }
        let ascii_end: usize = 12 + ascii;
        let described = charge_icc_text_bytes(lossy_text_bound(ascii), charge, limits)?;
        if tag.len() - ascii_end < 8 {
            return Ok(described);
        }
        let counted = charge_icc_record_count(described, limits)?;
        let units: usize = be_u32(tag, ascii_end + 4) as usize;
        let encoded: usize = match units.checked_mul(2) {
            Some(encoded) => encoded,
            None => return Ok(counted),
        };
        if encoded > tag.len() - ascii_end - 8 {
            return Ok(counted);
        }
        charge_icc_text_bytes(utf16_text_bound(encoded), counted, limits)
    } else {
        let bytes: usize = tag.len().saturating_sub(8);
        charge_icc_text_bytes(lossy_text_bound(bytes), charge, limits)
    }
}

/// Refuses a profile whose extent, tags, text, or records cannot be accounted
/// for.
#[verifier::loop_isolation(false)]
pub fn preflight_icc_profile(bytes: &[u8], limits: &Limits) -> (result: Result<(), Error>)
    ensures
        match profile_charged(bytes@, *limits) {
            Ok(_) => result is Ok,
            Err(fault) => result matches Err(error) && error@ == fault,
        },
{
    if bytes.len() < HEADER_BYTES + 4 {
        return Err(Error::UnsupportedColor("malformed embedded ICC profile"));
    }
    let declared: u32 = be_u32(bytes, 0);
    if declared as usize != bytes.len() {
        return Err(Error::UnsupportedColor("embedded ICC profile extent"));
    }
    let tag_count: u32 = be_u32(bytes, HEADER_BYTES);
    if tag_count as usize > limits.max_color_profile_tags {
        return Err(Error::UnsupportedColor("embedded ICC profile tag count"));
    }
    if tag_count as u64 * TAG_ENTRY_BYTES as u64 > (bytes.len() - HEADER_BYTES - 4) as u64 {
        return Err(Error::UnsupportedColor("malformed embedded ICC profile"));
    }
    let mut charge = TextCharge { bytes: 0, records: 0 };
    let mut index: u32 = 0;
    let mut entry: usize = HEADER_BYTES + 4;
    while index < tag_count
        invariant
            index <= tag_count,
            entry == HEADER_BYTES + 4 + index * TAG_ENTRY_BYTES,
            profile_charged(bytes@, *limits) == tags_charged(
                bytes@,
                index as nat,
                tag_count as nat,
                charge,
                *limits,
            ),
        decreases tag_count - index,
    {
        let offset: usize = be_u32(bytes, entry + 4) as usize;
        let size: usize = be_u32(bytes, entry + 8) as usize;
        let end: usize = if size == 0 {
            bytes.len()
        } else {
            match offset.checked_add(size) {
                Some(end) => end,
                None => return Err(Error::UnsupportedColor("malformed embedded ICC profile")),
            }
        };
        if offset > bytes.len() || end > bytes.len() {
            return Err(Error::UnsupportedColor("malformed embedded ICC profile"));
        }
        let tag = &bytes[offset..end];
        let mut is_text = false;
        if tag.len() >= 4 {
            let kind: u32 = be_u32(tag, 0);
            is_text = kind == MLUC || kind == DESC || kind == TEXT;
        }
        if is_text {
            charge = charge_icc_text(tag, charge, limits)?;
        }
        entry += TAG_ENTRY_BYTES;
        index += 1;
    }
    Ok(())
}

// ---------------------------------------------------------------------------
// Laws
// ---------------------------------------------------------------------------

/// Whether a charge is inside the text and record ceilings.
pub open spec fn within(charge: TextCharge, limits: Limits) -> bool {
    &&& charge.bytes <= limits.max_color_profile_text_bytes
    &&& charge.records <= limits.max_color_profile_text_records
}

proof fn lemma_records_within(
    tag: Seq<u8>,
    record: nat,
    count: nat,
    charge: TextCharge,
    limits: Limits,
)
    requires
        within(charge, limits),
    ensures
        records_charged(tag, record, count, charge, limits) matches Ok(total) ==> within(
            total,
            limits,
        ),
    decreases count - record,
{
    let at = 16int + 12 * record;
    if record < count && at + 12 <= tag.len() {
        if let Ok(Some(total)) = record_charged(
            tag,
            crate::wire::be(tag, at + 8, 4) as int,
            crate::wire::be(tag, at + 4, 4) as int,
            charge,
            limits,
        ) {
            lemma_records_within(tag, record + 1, count, total, limits);
        }
    }
}

proof fn lemma_tags_within(
    bytes: Seq<u8>,
    index: nat,
    count: nat,
    charge: TextCharge,
    limits: Limits,
)
    requires
        within(charge, limits),
    ensures
        tags_charged(bytes, index, count, charge, limits) matches Ok(total) ==> within(
            total,
            limits,
        ),
    decreases count - index,
{
    if index < count {
        let entry = HEADER_BYTES + 4 + index * TAG_ENTRY_BYTES;
        let offset = crate::wire::be(bytes, entry + 4, 4);
        let size = crate::wire::be(bytes, entry + 8, 4);
        let end = if size == 0 {
            bytes.len()
        } else {
            offset + size
        };
        let tag = bytes.subrange(offset as int, end as int);
        let declared = crate::wire::be(tag, 8, 4);
        lemma_records_within(
            tag,
            0,
            if declared == 0 {
                1
            } else {
                declared
            },
            charge,
            limits,
        );
        lemma_tags_within(bytes, index + 1, count, charge, limits);
        if let Ok(total) = text_charged(tag, charge, limits) {
            lemma_tags_within(bytes, index + 1, count, total, limits);
        }
    }
}

/// A profile that is accepted declares its own length, holds a budgeted number
/// of tags whose table it contains, and makes the profile parser materialize no
/// more text and no more records than the ceilings allow.
pub proof fn law_accepted_profiles_are_within_limits(bytes: Seq<u8>, limits: Limits)
    ensures
        profile_charged(bytes, limits) matches Ok(total) ==> {
            &&& within(total, limits)
            &&& crate::wire::be(bytes, 0, 4) == bytes.len()
            &&& crate::wire::be(bytes, HEADER_BYTES as int, 4) <= limits.max_color_profile_tags
            &&& HEADER_BYTES + 4 + crate::wire::be(bytes, HEADER_BYTES as int, 4) * TAG_ENTRY_BYTES
                <= bytes.len()
        },
{
    lemma_tags_within(
        bytes,
        0,
        crate::wire::be(bytes, HEADER_BYTES as int, 4),
        TextCharge { bytes: 0, records: 0 },
        limits,
    );
}

// ---------------------------------------------------------------------------
// Conversion
// ---------------------------------------------------------------------------

/// How `moxcms` reads a profile: `None` where it rejects the bytes, and
/// otherwise whether the profile's colour space is RGB.
pub uninterp spec fn profile_is_rgb(bytes: Seq<u8>) -> Option<bool>;

/// Whether `moxcms` can build an 8-bit RGBA transform from a profile to sRGB.
pub uninterp spec fn profile_converts(bytes: Seq<u8>) -> bool;

/// Whether `converted` is a result of running the profile's transform to sRGB
/// over `source`. The arithmetic is chosen for the processor at hand, so one
/// source may have more than one result.
pub uninterp spec fn converts_to(bytes: Seq<u8>, source: Seq<u8>, converted: Seq<u8>) -> bool;

/// Reads a profile with `moxcms::ColorProfile::new_from_slice` and tells whether
/// its colour space is RGB. The answer depends on the bytes alone, as long as there
/// is memory for the tables that are read: a machine that runs out of it is left
/// aside, here and in the two calls below. So is one whose clock stands before 1970,
/// because a profile starts out with the current date, and `moxcms` does not return
/// where it cannot tell it.
#[verifier::external_body]
fn read_profile(bytes: &[u8]) -> (is_rgb: Option<bool>)
    ensures
        is_rgb == profile_is_rgb(bytes@),
{
    match moxcms::ColorProfile::new_from_slice(bytes) {
        Ok(profile) => Some(profile.color_space == moxcms::DataColorSpace::Rgb),
        Err(_) => None,
    }
}

/// Whether `moxcms::ColorProfile::create_transform_8bit` builds a transform from
/// the profile to sRGB, RGBA on both sides and with default options. The answer
/// depends on the bytes alone, a lack of memory left aside.
#[verifier::external_body]
fn can_convert(bytes: &[u8]) -> (converts: bool)
    ensures
        converts == profile_converts(bytes@),
{
    moxcms::ColorProfile::new_from_slice(bytes).is_ok_and(|profile| {
        let srgb = moxcms::ColorProfile::new_srgb();
        let options = moxcms::TransformOptions::default();
        let rgba = moxcms::Layout::Rgba;
        profile.create_transform_8bit(rgba, &srgb, rgba, options).is_ok()
    })
}

/// Runs `moxcms::TransformExecutor::transform` from the profile to sRGB over
/// `source`, into a target of the same length. Where the transform can be built, it
/// refuses samples that do not make up whole pixels, before it writes any, and
/// converts all others; a lack of memory for its tables is left aside. Left open is
/// what the samples become, because the executor and its arithmetic are chosen for
/// the processor.
#[verifier::external_body]
fn convert(bytes: &[u8], source: &[u8], target: &mut Vec<u8>) -> (done: bool)
    requires
        old(target)@.len() == source@.len(),
    ensures
        final(target)@.len() == old(target)@.len(),
        done == (profile_converts(bytes@) && source@.len() % 4 == 0),
        done ==> converts_to(bytes@, source@, final(target)@),
        !done ==> final(target)@ == old(target)@,
{
    moxcms::ColorProfile::new_from_slice(bytes).is_ok_and(|profile| {
        let srgb = moxcms::ColorProfile::new_srgb();
        let options = moxcms::TransformOptions::default();
        let rgba = moxcms::Layout::Rgba;
        let transform = profile.create_transform_8bit(rgba, &srgb, rgba, options);
        transform.is_ok_and(|transform| transform.transform(source, target).is_ok())
    })
}

/// A validated ICC-to-sRGB transform for one embedded profile.
///
/// An embedded profile is converted rather than ignored, and a profile that
/// cannot be converted is refused instead of displayed with unspecified color.
pub struct IccTransform {
    profile: Vec<u8>,
}

/// Whether a profile can be used, or why it is refused.
pub open spec fn profile_accepted(bytes: Seq<u8>, limits: Limits) -> Result<(), Fault> {
    if bytes.len() == 0 || bytes.len() > limits.max_color_profile_bytes {
        Err(Fault::UnsupportedColor("embedded ICC profile size"@))
    } else {
        match profile_charged(bytes, limits) {
            Err(fault) => Err(fault),
            Ok(_) => profile_judged(profile_is_rgb(bytes), profile_converts(bytes)),
        }
    }
}

/// What follows from how the profile library reads a profile.
pub open spec fn profile_judged(is_rgb: Option<bool>, converts: bool) -> Result<(), Fault> {
    match is_rgb {
        None => Err(Fault::UnsupportedColor("malformed embedded ICC profile"@)),
        Some(false) => Err(Fault::UnsupportedColor("non-RGB embedded ICC profile"@)),
        Some(true) => if converts {
            Ok(())
        } else {
            Err(Fault::UnsupportedColor("unconvertible embedded ICC profile"@))
        },
    }
}

/// Judges a profile by how the profile library reads it.
pub fn judge_profile(is_rgb: Option<bool>, converts: bool) -> (result: Result<(), Error>)
    ensures
        super::heic::outcome(result, ()) == profile_judged(is_rgb, converts),
{
    match is_rgb {
        None => Err(Error::UnsupportedColor("malformed embedded ICC profile")),
        Some(false) => Err(Error::UnsupportedColor("non-RGB embedded ICC profile")),
        Some(true) => if converts {
            Ok(())
        } else {
            Err(Error::UnsupportedColor("unconvertible embedded ICC profile"))
        },
    }
}

impl View for IccTransform {
    type V = Seq<u8>;

    closed spec fn view(&self) -> Seq<u8> {
        self.profile@
    }
}

impl IccTransform {
    /// There is a transform from the profile to sRGB.
    #[verifier::type_invariant]
    closed spec fn convertible(self) -> bool {
        profile_converts(self.profile@)
    }

    /// Validates an embedded profile.
    pub fn new(profile: Vec<u8>, limits: &Limits) -> (result: Result<Self, Error>)
        ensures
            super::heic::outcome(result, ()) == profile_accepted(profile@, *limits),
            result matches Ok(transform) ==> transform@ == profile@,
    {
        if profile.len() == 0 || profile.len() > limits.max_color_profile_bytes {
            return Err(Error::UnsupportedColor("embedded ICC profile size"));
        }
        preflight_icc_profile(profile.as_slice(), limits)?;
        let is_rgb = read_profile(profile.as_slice());
        let converts = match is_rgb {
            Some(true) => can_convert(profile.as_slice()),
            _ => false,
        };
        judge_profile(is_rgb, converts)?;
        Ok(IccTransform { profile })
    }

    /// Converts tightly packed RGBA pixels to sRGB. Bytes that do not make up whole
    /// pixels are refused, and the target is then left alone.
    pub fn apply(&self, source: &[u8], target: &mut Vec<u8>) -> (done: bool)
        requires
            old(target)@.len() == source@.len(),
        ensures
            final(target)@.len() == old(target)@.len(),
            done == (source@.len() % 4 == 0),
            done ==> converts_to(self@, source@, final(target)@),
            !done ==> final(target)@ == old(target)@,
    {
        proof {
            use_type_invariant(self);
        }
        convert(self.profile.as_slice(), source, target)
    }
}

// ---------------------------------------------------------------------------
// What a profile is charged for
// ---------------------------------------------------------------------------

/// Text of two bytes a unit is charged at three bytes a unit, rounded down, and text of
/// one byte a unit at three bytes each.
pub proof fn law_text_is_charged_at_its_worst(bytes: int)
    requires
        0 <= bytes,
        3 * bytes <= usize::MAX,
    ensures
        2 * utf16_bound(bytes) <= 3 * bytes < 2 * utf16_bound(bytes) + 2,
        lossy_bound(bytes) == 3 * bytes,
{
}

/// A charge is taken where it stays within its ceiling, and changes nothing but its own
/// count.
pub proof fn law_charges_are_taken_up_to_their_ceiling(
    charge: TextCharge,
    decoded: int,
    limits: Limits,
)
    requires
        0 <= decoded,
    ensures
        with_bytes(charge, decoded, limits) is Ok <==> charge.bytes + decoded
            <= limits.max_color_profile_text_bytes,
        with_bytes(charge, decoded, limits) matches Ok(after) ==> after.bytes == charge.bytes
            + decoded && after.records == charge.records,
        with_bytes(charge, decoded, limits) is Err ==> with_bytes(charge, decoded, limits) == Err::<
            TextCharge,
            Fault,
        >(Fault::UnsupportedColor("embedded ICC profile text size"@)),
        charge.records < usize::MAX ==> (with_record(charge, limits) is Ok <==> charge.records
            < limits.max_color_profile_text_records),
        charge.records < usize::MAX ==> (with_record(charge, limits) matches Ok(after)
            ==> after.records == charge.records + 1 && after.bytes == charge.bytes),
        with_record(charge, limits) is Err ==> with_record(charge, limits) == Err::<
            TextCharge,
            Fault,
        >(Fault::UnsupportedColor("embedded ICC profile text records"@)),
{
}

/// Where the localization record `number` of a tag says that its text lies, and how long
/// it is.
pub open spec fn record_text(tag: Seq<u8>, number: int) -> (int, int) {
    (
        crate::wire::be(tag, 16 + 12 * number + 8, 4) as int,
        crate::wire::be(tag, 16 + 12 * number + 4, 4) as int,
    )
}

/// Whether the charges go up by one localization record at each step.
pub open spec fn records_lead(tag: Seq<u8>, charges: Seq<TextCharge>, limits: Limits) -> bool {
    forall|number: int|
        0 <= number < charges.len() - 1 ==> #[trigger] record_leads(tag, charges, number, limits)
}

/// Whether one localization record lies in its tag and is charged between two charges.
pub open spec fn record_leads(
    tag: Seq<u8>,
    charges: Seq<TextCharge>,
    number: int,
    limits: Limits,
) -> bool {
    let (offset, length) = record_text(tag, number);
    &&& 16 + 12 * number + 12 <= tag.len()
    &&& offset + length <= tag.len()
    &&& charges[number + 1].records == charges[number].records + 1
    &&& charges[number + 1].bytes == charges[number].bytes + 3 * length / 2
    &&& charges[number + 1].records <= limits.max_color_profile_text_records
    &&& charges[number + 1].bytes <= limits.max_color_profile_text_bytes
}

/// Whether the records of a tag end at a number: all that it counts were read, the next
/// one is cut off, or its text leaves the tag.
pub open spec fn records_end(tag: Seq<u8>, number: int, count: nat) -> bool {
    let (offset, length) = record_text(tag, number);
    number >= count || 16 + 12 * number + 12 > tag.len() || offset + length > tag.len()
}

/// Localization records are charged one by one, each for itself and for its text, up to
/// the last that is whole.
pub proof fn law_records_are_charged_one_by_one(
    tag: Seq<u8>,
    count: nat,
    charges: Seq<TextCharge>,
    limits: Limits,
)
    requires
        charges.len() >= 1,
        records_lead(tag, charges, limits),
        records_end(tag, charges.len() - 1, count),
        charges.len() - 1 <= count,
        tag.len() <= usize::MAX / 3,
    ensures
        records_charged(tag, 0, count, charges[0], limits) == Ok::<TextCharge, Fault>(
            charges.last(),
        ),
{
    lemma_records_lead(tag, count, charges, limits, 0);
}

proof fn lemma_records_lead(
    tag: Seq<u8>,
    count: nat,
    charges: Seq<TextCharge>,
    limits: Limits,
    number: nat,
)
    requires
        number < charges.len(),
        records_lead(tag, charges, limits),
        records_end(tag, charges.len() - 1, count),
        charges.len() - 1 <= count,
        tag.len() <= usize::MAX / 3,
    ensures
        records_charged(tag, number, count, charges[number as int], limits) == Ok::<
            TextCharge,
            Fault,
        >(charges.last()),
    decreases charges.len() - number,
{
    if number + 1 < charges.len() {
        assert(record_leads(tag, charges, number as int, limits));
        lemma_records_lead(tag, count, charges, limits, number + 1);
        let (offset, length) = record_text(tag, number as int);
        assert(record_charged(tag, offset, length, charges[number as int], limits) == Ok::<
            Option<TextCharge>,
            Fault,
        >(Some(charges[number as int + 1])));
    }
}

/// Records that were charged lie in their tag one behind the other; the answer gives the
/// charges from one to the next.
pub proof fn law_charged_records_lie_in_their_tag(
    tag: Seq<u8>,
    count: nat,
    charge: TextCharge,
    limits: Limits,
) -> (charges: Seq<TextCharge>)
    requires
        records_charged(tag, 0, count, charge, limits) is Ok,
        tag.len() <= usize::MAX / 3,
        limits.max_color_profile_text_records < usize::MAX,
    ensures
        charges.len() >= 1,
        charges[0] == charge,
        records_lead(tag, charges, limits),
        records_end(tag, charges.len() - 1, count),
        records_charged(tag, 0, count, charge, limits) == Ok::<TextCharge, Fault>(charges.last()),
{
    let charges = lemma_charges(tag, count, seq![charge], limits);
    charges
}

proof fn lemma_charges(
    tag: Seq<u8>,
    count: nat,
    begun: Seq<TextCharge>,
    limits: Limits,
) -> (charges: Seq<TextCharge>)
    requires
        begun.len() >= 1,
        begun.len() - 1 <= count,
        records_lead(tag, begun, limits),
        records_charged(tag, (begun.len() - 1) as nat, count, begun.last(), limits) is Ok,
        tag.len() <= usize::MAX / 3,
        limits.max_color_profile_text_records < usize::MAX,
    ensures
        charges.len() >= 1,
        charges[0] == begun[0],
        records_lead(tag, charges, limits),
        records_end(tag, charges.len() - 1, count),
        records_charged(tag, (begun.len() - 1) as nat, count, begun.last(), limits) == Ok::<
            TextCharge,
            Fault,
        >(charges.last()),
    decreases count + 1 - begun.len(),
{
    let number = begun.len() - 1;
    let (offset, length) = record_text(tag, number);
    if records_end(tag, number, count) {
        begun
    } else {
        let total = record_charged(tag, offset, length, begun.last(), limits)->Ok_0->0;
        let more = begun.push(total);
        assert forall|at: int| 0 <= at < more.len() - 1 implies #[trigger] record_leads(
            tag,
            more,
            at,
            limits,
        ) by {
            if at < begun.len() - 1 {
                assert(record_leads(tag, begun, at, limits));
            } else {
                assert(more[at] == begun.last() && more[at + 1] == total);
            }
        }
        let charges = lemma_charges(tag, count, more, limits);
        charges
    }
}

/// A localized text is charged record by record; one that counts none still has its first,
/// and one that has no room for a record has none.
pub proof fn law_localized_text_is_charged_by_its_records(
    tag: Seq<u8>,
    charge: TextCharge,
    limits: Limits,
)
    requires
        crate::wire::be(tag, 0, 4) == 0x6d6c_7563,
    ensures
        tag.len() < 28 ==> text_charged(tag, charge, limits) == Ok::<TextCharge, Fault>(charge),
        tag.len() >= 28 && crate::wire::be(tag, 8, 4) > 0 ==> text_charged(tag, charge, limits)
            == records_charged(tag, 0, crate::wire::be(tag, 8, 4), charge, limits),
        tag.len() >= 28 && crate::wire::be(tag, 8, 4) == 0 ==> text_charged(tag, charge, limits)
            == records_charged(tag, 0, 1, charge, limits),
{
}

/// A plain text is charged at three bytes for each byte behind its eight of header.
pub proof fn law_plain_text_is_charged_by_its_length(
    tag: Seq<u8>,
    charge: TextCharge,
    limits: Limits,
)
    requires
        crate::wire::be(tag, 0, 4) == 0x7465_7874,
        8 <= tag.len() <= usize::MAX / 3,
    ensures
        ({
            let bytes = charge.bytes + 3 * (tag.len() - 8);
            let charged = text_charged(tag, charge, limits);
            &&& charged is Ok <==> bytes <= limits.max_color_profile_text_bytes
            &&& (charged matches Ok(after) ==> after.bytes == bytes && after.records
                == charge.records)
        }),
{
}

/// A description is charged for its ASCII text, and where its Unicode text follows, for a
/// record and for that text too, each as far as it lies in the tag.
pub proof fn law_descriptions_are_charged_by_their_texts(
    tag: Seq<u8>,
    charge: TextCharge,
    limits: Limits,
)
    requires
        crate::wire::be(tag, 0, 4) == 0x6465_7363,
        12 <= tag.len() <= usize::MAX / 3,
        charge.records < usize::MAX,
    ensures
        ({
            let ascii = crate::wire::be(tag, 8, 4) as int;
            let end = 12 + ascii;
            let units = crate::wire::be(tag, end + 4, 4) as int;
            let charged = text_charged(tag, charge, limits);
            let first = charge.bytes + 3 * ascii;
            let unicode = end + 8 <= tag.len();
            let whole = unicode && end + 8 + 2 * units <= tag.len();
            let bytes = if whole {
                first + 3 * units
            } else {
                first
            };
            let records = if unicode {
                charge.records + 1
            } else {
                charge.records as int
            };
            &&& end > tag.len() ==> charged == Ok::<TextCharge, Fault>(charge)
            &&& end <= tag.len() ==> (charged is Ok <==> bytes
                <= limits.max_color_profile_text_bytes && (unicode ==> records
                <= limits.max_color_profile_text_records))
            &&& end <= tag.len() ==> (charged matches Ok(after) ==> after.bytes == bytes
                && after.records == records)
        }),
{
}

/// The bytes of the tag `number` of a profile, by its entry in the table: from its offset,
/// as many as it says, or to the end where it says none.
pub open spec fn tag_range(bytes: Seq<u8>, number: int) -> (int, int) {
    let entry = 132 + 12 * number;
    let offset = crate::wire::be(bytes, entry + 4, 4) as int;
    let size = crate::wire::be(bytes, entry + 8, 4) as int;
    (
        offset,
        if size == 0 {
            bytes.len() as int
        } else {
            offset + size
        },
    )
}

/// Whether one tag lies in its profile and leads from a charge to the next: a text is
/// charged for, anything else costs nothing.
pub open spec fn tag_leads(
    bytes: Seq<u8>,
    charges: Seq<TextCharge>,
    number: int,
    limits: Limits,
) -> bool {
    let (start, end) = tag_range(bytes, number);
    let tag = bytes.subrange(start, end);
    let kind = crate::wire::be(tag, 0, 4);
    let text = tag.len() >= 4 && (kind == 0x6d6c_7563 || kind == 0x6465_7363 || kind
        == 0x7465_7874);
    &&& start <= bytes.len()
    &&& end <= bytes.len()
    &&& text ==> text_charged(tag, charges[number], limits) == Ok::<TextCharge, Fault>(
        charges[number + 1],
    )
    &&& !text ==> charges[number + 1] == charges[number]
}

/// Whether the tags of a profile lead from charge to charge.
pub open spec fn tags_lead(bytes: Seq<u8>, charges: Seq<TextCharge>, limits: Limits) -> bool {
    forall|number: int|
        0 <= number < charges.len() - 1 ==> #[trigger] tag_leads(bytes, charges, number, limits)
}

/// A profile that says its own length, has no more tags than it may, and holds its table,
/// costs what its tags cost one after the other.
pub proof fn law_profiles_are_charged_tag_by_tag(
    bytes: Seq<u8>,
    charges: Seq<TextCharge>,
    limits: Limits,
)
    requires
        charges.len() == crate::wire::be(bytes, 128, 4) + 1,
        charges[0] == (TextCharge { bytes: 0, records: 0 }),
        tags_lead(bytes, charges, limits),
        bytes.len() >= 132,
        crate::wire::be(bytes, 0, 4) == bytes.len(),
        crate::wire::be(bytes, 128, 4) <= limits.max_color_profile_tags,
        132 + 12 * crate::wire::be(bytes, 128, 4) <= bytes.len(),
    ensures
        profile_charged(bytes, limits) == Ok::<TextCharge, Fault>(charges.last()),
{
    lemma_tags_lead(bytes, charges, limits, 0);
}

proof fn lemma_tags_lead(
    bytes: Seq<u8>,
    charges: Seq<TextCharge>,
    limits: Limits,
    number: nat,
)
    requires
        number < charges.len(),
        tags_lead(bytes, charges, limits),
    ensures
        tags_charged(
            bytes,
            number,
            (charges.len() - 1) as nat,
            charges[number as int],
            limits,
        ) == Ok::<TextCharge, Fault>(charges.last()),
    decreases charges.len() - number,
{
    if number + 1 < charges.len() {
        assert(tag_leads(bytes, charges, number as int, limits));
        lemma_tags_lead(bytes, charges, limits, number + 1);
    }
}

/// A profile that is accepted is one of these; the answer gives the charges from tag to tag.
pub proof fn law_accepted_profiles_were_charged_tag_by_tag(bytes: Seq<u8>, limits: Limits) -> (charges:
    Seq<TextCharge>)
    requires
        profile_charged(bytes, limits) is Ok,
    ensures
        charges.len() == crate::wire::be(bytes, 128, 4) + 1,
        charges[0] == (TextCharge { bytes: 0, records: 0 }),
        tags_lead(bytes, charges, limits),
        profile_charged(bytes, limits) == Ok::<TextCharge, Fault>(charges.last()),
{
    let charges = lemma_tag_charges(
        bytes,
        crate::wire::be(bytes, 128, 4),
        seq![TextCharge { bytes: 0, records: 0 }],
        limits,
    );
    charges
}

proof fn lemma_tag_charges(
    bytes: Seq<u8>,
    count: nat,
    begun: Seq<TextCharge>,
    limits: Limits,
) -> (charges: Seq<TextCharge>)
    requires
        begun.len() >= 1,
        begun.len() - 1 <= count,
        tags_lead(bytes, begun, limits),
        tags_charged(bytes, (begun.len() - 1) as nat, count, begun.last(), limits) is Ok,
    ensures
        charges.len() == count + 1,
        charges[0] == begun[0],
        tags_lead(bytes, charges, limits),
        tags_charged(bytes, (begun.len() - 1) as nat, count, begun.last(), limits) == Ok::<
            TextCharge,
            Fault,
        >(charges.last()),
    decreases count + 1 - begun.len(),
{
    let number = begun.len() - 1;
    if number >= count {
        begun
    } else {
        let (start, end) = tag_range(bytes, number);
        let tag = bytes.subrange(start, end);
        let next = if text_tag(tag) {
            text_charged(tag, begun.last(), limits)->Ok_0
        } else {
            begun.last()
        };
        let more = begun.push(next);
        assert forall|at: int| 0 <= at < more.len() - 1 implies #[trigger] tag_leads(
            bytes,
            more,
            at,
            limits,
        ) by {
            if at < begun.len() - 1 {
                assert(tag_leads(bytes, begun, at, limits));
            } else {
                assert(more[at] == begun.last() && more[at + 1] == next);
            }
        }
        let charges = lemma_tag_charges(bytes, count, more, limits);
        charges
    }
}

/// A profile is used where it is there, not too large, costs no more than it may, is read
/// as one of RGB, and can be converted.
pub proof fn law_profiles_are_used_where_they_convert(
    bytes: Seq<u8>,
    is_rgb: Option<bool>,
    converts: bool,
    limits: Limits,
)
    ensures
        profile_judged(is_rgb, converts) is Ok <==> is_rgb == Some(true) && converts,
        profile_judged(None, converts) == Err::<(), Fault>(
            Fault::UnsupportedColor("malformed embedded ICC profile"@),
        ),
        profile_judged(Some(false), converts) == Err::<(), Fault>(
            Fault::UnsupportedColor("non-RGB embedded ICC profile"@),
        ),
        profile_judged(Some(true), false) == Err::<(), Fault>(
            Fault::UnsupportedColor("unconvertible embedded ICC profile"@),
        ),
        profile_accepted(bytes, limits) is Ok <==> {
            &&& 1 <= bytes.len() <= limits.max_color_profile_bytes
            &&& profile_charged(bytes, limits) is Ok
            &&& profile_is_rgb(bytes) == Some(true)
            &&& profile_converts(bytes)
        },
        bytes.len() == 0 || bytes.len() > limits.max_color_profile_bytes ==> profile_accepted(
            bytes,
            limits,
        ) == Err::<(), Fault>(Fault::UnsupportedColor("embedded ICC profile size"@)),
{
}

} // verus!
