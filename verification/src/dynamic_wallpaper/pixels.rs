//! Decoded planes turned into tightly packed, opaque RGBA frames.

use vstd::prelude::*;

use super::heic::{Error, Fault, Limits, RgbaFrame};
use super::icc::IccTransform;

verus! {

/// Tightly packed RGBA bytes the ICC conversion consumes at a time.
///
/// The conversion works on a fixed scratch chunk rather than a second
/// full-frame buffer.
pub const ICC_CONVERSION_CHUNK_BYTES: usize = 0x10_0000;

// ---------------------------------------------------------------------------
// Model
// ---------------------------------------------------------------------------

/// One colour channel with its alpha divided back out.
pub open spec fn straight_channel(channel: u8, alpha: u8) -> u8 {
    if alpha == 255 {
        channel
    } else if alpha == 0 {
        0
    } else {
        let divided = (channel * 255 + alpha as int / 2) / alpha as int;
        if divided > 255 {
            255
        } else {
            divided as u8
        }
    }
}

/// One colour channel over opaque black.
pub open spec fn black_channel(channel: u8, alpha: u8) -> u8 {
    ((channel * alpha + 127) / 255) as u8
}

/// The alpha of the pixel that byte `index` belongs to.
pub open spec fn alpha_of(pixels: Seq<u8>, index: int) -> u8 {
    pixels[index - index % 4 + 3]
}

/// `pixels` with alpha divided back out of every colour channel. Bytes after
/// the last whole pixel stay as they are.
pub open spec fn unpremultiplied(pixels: Seq<u8>) -> Seq<u8> {
    Seq::new(
        pixels.len(),
        |i: int|
            if i >= pixels.len() - pixels.len() % 4 || i % 4 == 3 {
                pixels[i]
            } else {
                straight_channel(pixels[i], alpha_of(pixels, i))
            },
    )
}

/// `pixels` with every colour channel multiplied by its alpha, which stays. Bytes
/// after the last whole pixel stay as they are.
pub open spec fn multiplied(pixels: Seq<u8>) -> Seq<u8> {
    Seq::new(
        pixels.len(),
        |i: int|
            if i >= pixels.len() - pixels.len() % 4 || i % 4 == 3 {
                pixels[i]
            } else {
                black_channel(pixels[i], alpha_of(pixels, i))
            },
    )
}

/// `pixels` over opaque black, and opaque. Bytes after the last whole pixel stay
/// as they are.
pub open spec fn composited(pixels: Seq<u8>, premultiplied: bool) -> Seq<u8> {
    Seq::new(
        pixels.len(),
        |i: int|
            if i >= pixels.len() - pixels.len() % 4 {
                pixels[i]
            } else if i % 4 == 3 {
                255u8
            } else if premultiplied {
                pixels[i]
            } else {
                black_channel(pixels[i], alpha_of(pixels, i))
            },
    )
}

/// Whether every whole pixel is opaque.
pub open spec fn opaque(pixels: Seq<u8>) -> bool {
    forall|pixel: int|
        0 <= pixel && 4 * pixel + 3 < pixels.len() ==> #[trigger] pixels[4 * pixel + 3] == 255
}

/// The first `row_bytes` of each of `height` rows that are `stride` apart.
pub open spec fn packed_rows(source: Seq<u8>, stride: int, row_bytes: int, height: int) -> Seq<u8>
    decreases height,
{
    if height <= 0 {
        Seq::empty()
    } else {
        packed_rows(source, stride, row_bytes, height - 1) + source.subrange(
            (height - 1) * stride,
            (height - 1) * stride + row_bytes,
        )
    }
}

/// Whether a plane of `length` bytes holds the image and fits the limits.
pub open spec fn plane_checked(
    length: int,
    stride: int,
    width: int,
    height: int,
    limits: Limits,
) -> Result<(), Fault> {
    if 4 * width * height > limits.max_output_bytes || 4 * width > usize::MAX {
        Err(Fault::Limit("decoded image memory"@))
    } else if stride < 4 * width {
        Err(Fault::Decode("decoded row stride is too short"@))
    } else if stride * height > usize::MAX {
        Err(Fault::Decode("decoded plane size overflow"@))
    } else if length < stride * height {
        Err(Fault::Decode("decoded plane is truncated"@))
    } else {
        Ok(())
    }
}

// ---------------------------------------------------------------------------
// Execution
// ---------------------------------------------------------------------------

/// Reserves room for `additional` bytes with `Vec::try_reserve_exact`. The
/// contents never change. Where nothing is added, the capacity suffices already;
/// whether memory is available is otherwise up to the machine.
#[verifier::external_body]
pub(crate) fn reserve_bytes(buffer: &mut Vec<u8>, additional: usize) -> (reserved: bool)
    ensures
        final(buffer)@ == old(buffer)@,
        additional == 0 ==> reserved,
{
    buffer.try_reserve_exact(additional).is_ok()
}

/// Divides alpha back out of premultiplied color channels.
///
/// A fully transparent pixel carries no color to recover, so it becomes black.
pub fn unpremultiply(pixels: &mut [u8])
    ensures
        final(pixels)@ == unpremultiplied(old(pixels)@),
{
    let ghost before = pixels@;
    let length: usize = pixels.len();
    let mut at: usize = 0;
    while length - at >= 4
        invariant
            at <= length,
            at % 4 == 0,
            length == before.len(),
            pixels@.len() == length,
            forall|i: int| 0 <= i < at ==> #[trigger] pixels@[i] == unpremultiplied(before)[i],
            forall|i: int| at <= i < length ==> #[trigger] pixels@[i] == before[i],
        decreases length - at,
    {
        let alpha: u8 = pixels[at + 3];
        let mut channel: usize = 0;
        while channel < 3
            invariant
                channel <= 3,
                at + 4 <= length,
                at % 4 == 0,
                length == before.len(),
                pixels@.len() == length,
                alpha == before[at + 3],
                forall|i: int|
                    0 <= i < at + channel ==> #[trigger] pixels@[i] == unpremultiplied(before)[i],
                forall|i: int| at + channel <= i < length ==> #[trigger] pixels@[i] == before[i],
            decreases 3 - channel,
        {
            let value: u8 = pixels[at + channel];
            let straight: u8 = straight_value(value, alpha);
            proof {
                let i = at + channel;
                assert(i % 4 == channel);
                assert(i - i % 4 + 3 == at + 3);
            }
            pixels[at + channel] = straight;
            channel += 1;
        }
        at += 4;
    }
    assert(pixels@ =~= unpremultiplied(before));
}

fn straight_value(channel: u8, alpha: u8) -> (straight: u8)
    ensures
        straight == straight_channel(channel, alpha),
{
    if alpha == 255 {
        return channel;
    }
    if alpha == 0 {
        return 0;
    }
    let divided: u16 = (channel as u16 * 255 + alpha as u16 / 2) / alpha as u16;
    if divided > 255 {
        255
    } else {
        divided as u8
    }
}

/// Composites straight or premultiplied alpha over opaque black and makes every
/// pixel opaque.
pub fn composite_over_black(pixels: &mut [u8], premultiplied_alpha: bool)
    ensures
        final(pixels)@ == composited(old(pixels)@, premultiplied_alpha),
        opaque(final(pixels)@),
{
    let ghost before = pixels@;
    let length: usize = pixels.len();
    let mut at: usize = 0;
    while length - at >= 4
        invariant
            at <= length,
            at % 4 == 0,
            length == before.len(),
            pixels@.len() == length,
            forall|i: int|
                0 <= i < at ==> #[trigger] pixels@[i] == composited(
                    before,
                    premultiplied_alpha,
                )[i],
            forall|i: int| at <= i < length ==> #[trigger] pixels@[i] == before[i],
        decreases length - at,
    {
        let alpha: u8 = pixels[at + 3];
        if !premultiplied_alpha {
            let mut channel: usize = 0;
            while channel < 3
                invariant
                    channel <= 3,
                    at + 4 <= length,
                    at % 4 == 0,
                    length == before.len(),
                    pixels@.len() == length,
                    alpha == before[at + 3],
                    forall|i: int|
                        0 <= i < at + channel ==> #[trigger] pixels@[i] == composited(
                            before,
                            false,
                        )[i],
                    forall|i: int|
                        at + channel <= i < length ==> #[trigger] pixels@[i] == before[i],
                decreases 3 - channel,
            {
                let value: u8 = pixels[at + channel];
                assert(value * alpha <= 255 * 255) by (nonlinear_arith)
                    requires
                        value <= 255,
                        alpha <= 255,
                ;
                let scaled: u16 = (value as u16 * alpha as u16 + 127) / 255;
                proof {
                    let i = at + channel;
                    assert(i % 4 == channel);
                    assert(i - i % 4 + 3 == at + 3);
                }
                pixels[at + channel] = scaled as u8;
                channel += 1;
            }
        }
        pixels[at + 3] = 255;
        at += 4;
    }
    assert(pixels@ =~= composited(before, premultiplied_alpha));
    assert forall|pixel: int| 0 <= pixel && 4 * pixel + 3 < pixels@.len() implies #[trigger] pixels@[4
        * pixel + 3] == 255 by {
        assert((4 * pixel + 3) % 4 == 3);
    }
}

/// Refuses a decoded plane that does not hold the image or exceeds the limits.
pub fn check_plane(length: usize, stride: usize, width: u32, height: u32, limits: &Limits) -> (
result: Result<usize, Error>)
    ensures
        super::heic::outcome(result, ()) == plane_checked(
            length as int,
            stride as int,
            width as int,
            height as int,
            *limits,
        ),
        result is Ok ==> result->Ok_0 == 4 * width,
{
    assert(0 <= 4 * width * height <= 4 * 0xffff_ffff * 0xffff_ffff) by (nonlinear_arith)
        requires
            0 <= width <= 0xffff_ffff,
            0 <= height <= 0xffff_ffff,
    ;
    assert(0 <= stride * height <= 0xffff_ffff_ffff_ffff * 0xffff_ffff) by (nonlinear_arith)
        requires
            0 <= stride <= 0xffff_ffff_ffff_ffff,
            0 <= height <= 0xffff_ffff,
    ;
    assert(4 * width * height == (4 * width) * height) by (nonlinear_arith);
    let row_bytes: u64 = 4 * width as u64;
    let output_bytes: u128 = row_bytes as u128 * height as u128;
    if output_bytes > limits.max_output_bytes as u128 || row_bytes > usize::MAX as u64 {
        return Err(Error::Limit("decoded image memory"));
    }
    if (stride as u64) < row_bytes {
        return Err(Error::Decode("decoded row stride is too short".to_owned()));
    }
    let required: u128 = stride as u128 * height as u128;
    if required > usize::MAX as u128 {
        return Err(Error::Decode("decoded plane size overflow".to_owned()));
    }
    if (length as u128) < required {
        return Err(Error::Decode("decoded plane is truncated".to_owned()));
    }
    Ok(row_bytes as usize)
}

/// Appends the rows of a plane to an empty buffer.
pub(crate) fn pack_rows(source: &[u8], stride: usize, row_bytes: usize, height: u32, pixels: &mut Vec<u8>)
    requires
        row_bytes <= stride,
        stride * height <= source@.len(),
        old(pixels)@.len() == 0,
    ensures
        final(pixels)@ == packed_rows(source@, stride as int, row_bytes as int, height as int),
{
    assert(pixels@ =~= packed_rows(source@, stride as int, row_bytes as int, 0));
    let mut row: u32 = 0;
    let mut at: usize = 0;
    proof {
        assert(0 * stride == 0) by (nonlinear_arith);
    }
    while row < height
        invariant
            row <= height,
            row_bytes <= stride,
            stride * height <= source@.len(),
            at == row * stride,
            pixels@ == packed_rows(source@, stride as int, row_bytes as int, row as int),
        decreases height - row,
    {
        let length: usize = source.len();
        assert(row * stride + stride <= stride * height) by (nonlinear_arith)
            requires
                row + 1 <= height,
                stride >= 0,
        ;
        let slice = &source[at..at + row_bytes];
        pixels.extend_from_slice(slice);
        assert(pixels@ =~= packed_rows(source@, stride as int, row_bytes as int, row as int)
            + source@.subrange(at as int, at + row_bytes));
        assert((row + 1) * stride == row * stride + stride) by (nonlinear_arith);
        at += stride;
        row += 1;
    }
}

/// The `index`th conversion chunk of a pixel buffer.
pub open spec fn chunk(pixels: Seq<u8>, index: int) -> Seq<u8> {
    let start = index * ICC_CONVERSION_CHUNK_BYTES;
    let end = start + ICC_CONVERSION_CHUNK_BYTES;
    pixels.subrange(
        start,
        if end > pixels.len() {
            pixels.len() as int
        } else {
            end
        },
    )
}

/// Whether `converted` holds a conversion of each chunk of `source`.
pub open spec fn converted_chunks(profile: Seq<u8>, source: Seq<u8>, converted: Seq<u8>) -> bool {
    &&& converted.len() == source.len()
    &&& forall|index: int|
        0 <= index && index * ICC_CONVERSION_CHUNK_BYTES < source.len()
            ==> super::icc::converts_to(
            profile,
            #[trigger] chunk(source, index),
            chunk(converted, index),
        )
}

/// An empty buffer with room for `size` bytes, where there is memory for it.
fn reserve_buffer(size: usize) -> (buffer: Option<Vec<u8>>)
    ensures
        buffer matches Some(buffer) ==> buffer@.len() == 0,
        size == 0 ==> buffer is Some,
{
    let mut buffer: Vec<u8> = Vec::new();
    if reserve_bytes(&mut buffer, size) {
        Some(buffer)
    } else {
        None
    }
}

/// The size of the scratch chunk that a conversion of so many bytes works on.
pub open spec fn scratch_size(length: nat) -> nat {
    if length < ICC_CONVERSION_CHUNK_BYTES {
        length
    } else {
        ICC_CONVERSION_CHUNK_BYTES as nat
    }
}

fn scratch_bytes(length: usize) -> (size: usize)
    ensures
        size == scratch_size(length as nat),
{
    if length < ICC_CONVERSION_CHUNK_BYTES {
        length
    } else {
        ICC_CONVERSION_CHUNK_BYTES
    }
}

/// Takes the transform's answer for the chunk at `at`: its samples replace the
/// chunk, or the conversion has failed.
pub fn take_chunk(pixels: &mut Vec<u8>, at: usize, samples: &[u8], done: bool) -> (result: Result<
    (),
    Error,
>)
    requires
        at + samples@.len() <= old(pixels)@.len(),
    ensures
        super::heic::outcome(result, ()) == if done {
            Ok::<(), Fault>(())
        } else {
            Err(Fault::UnsupportedColor("embedded ICC profile conversion failed"@))
        },
        final(pixels)@ == if done {
            old(pixels)@.subrange(0, at as int) + samples@ + old(pixels)@.subrange(
                at + samples@.len(),
                old(pixels)@.len() as int,
            )
        } else {
            old(pixels)@
        },
{
    if !done {
        return Err(Error::UnsupportedColor("embedded ICC profile conversion failed"));
    }
    let ghost before = pixels@;
    let length: usize = pixels.len();
    let size: usize = samples.len();
    let mut offset: usize = 0;
    while offset < size
        invariant
            offset <= size,
            size == samples@.len(),
            length == before.len(),
            at + size <= length,
            pixels@.len() == length,
            forall|i: int|
                0 <= i < before.len() && !(at <= i < at + offset) ==> #[trigger] pixels@[i]
                    == before[i],
            forall|i: int| at <= i < at + offset ==> #[trigger] pixels@[i] == samples@[i - at],
        decreases size - offset,
    {
        pixels[at + offset] = samples[offset];
        offset += 1;
    }
    assert(pixels@ =~= before.subrange(0, at as int) + samples@ + before.subrange(
        at + size,
        before.len() as int,
    ));
    Ok(())
}

/// Converts tightly packed RGBA pixels to sRGB through `transform`.
///
/// The conversion runs over bounded chunks so the working set is a constant
/// rather than a second frame. It fails where the bytes do not make up whole pixels,
/// or where there is no memory for the scratch chunk, and in no other case.
pub fn convert_to_srgb(pixels: &mut Vec<u8>, transform: &IccTransform) -> (result: Result<
    (),
    Error,
>)
    ensures
        final(pixels)@.len() == old(pixels)@.len(),
        match result {
            Ok(()) => old(pixels)@.len() % 4 == 0 && converted_chunks(
                transform@,
                old(pixels)@,
                final(pixels)@,
            ),
            Err(error) => {
                ||| old(pixels)@.len() > 0 && error@ == Fault::Limit("ICC conversion buffer"@)
                ||| old(pixels)@.len() % 4 != 0 && error@ == Fault::UnsupportedColor(
                    "embedded ICC profile conversion failed"@,
                )
            },
        },
{
    let scratch = reserve_buffer(scratch_bytes(pixels.len()));
    convert_to_srgb_given(pixels, transform, scratch)
}

/// Converts tightly packed RGBA pixels to sRGB through `transform`, chunk by chunk in
/// a scratch buffer, if there is one.
#[verifier::loop_isolation(false)]
pub fn convert_to_srgb_given(
    pixels: &mut Vec<u8>,
    transform: &IccTransform,
    scratch: Option<Vec<u8>>,
) -> (result: Result<(), Error>)
    ensures
        final(pixels)@.len() == old(pixels)@.len(),
        super::heic::outcome(result, ()) == if scratch is None {
            Err::<(), Fault>(Fault::Limit("ICC conversion buffer"@))
        } else if old(pixels)@.len() % 4 != 0 {
            Err(Fault::UnsupportedColor("embedded ICC profile conversion failed"@))
        } else {
            Ok(())
        },
        result is Ok ==> converted_chunks(transform@, old(pixels)@, final(pixels)@),
{
    let mut scratch = match scratch {
        Some(scratch) => scratch,
        None => return Err(Error::Limit("ICC conversion buffer")),
    };
    let ghost before = pixels@;
    let length: usize = pixels.len();
    let whole: usize = scratch_bytes(length);
    scratch.clear();
    scratch.resize(whole, 0);
    let mut at: usize = 0;
    let ghost mut index: int = 0;
    while at < length
        invariant
            index >= 0,
            at == index * ICC_CONVERSION_CHUNK_BYTES || at == length && length <= index
                * ICC_CONVERSION_CHUNK_BYTES && length % 4 == 0,
            at <= length,
            pixels@.len() == length,
            scratch@.len() == whole || at == length,
            forall|i: int| at <= i < length ==> #[trigger] pixels@[i] == before[i],
            forall|i: int|
                0 <= i < index && i * ICC_CONVERSION_CHUNK_BYTES < length
                    ==> super::icc::converts_to(
                    transform@,
                    #[trigger] chunk(before, i),
                    chunk(pixels@, i),
                ),
        decreases length - at,
    {
        let size: usize = if length - at < whole {
            length - at
        } else {
            whole
        };
        scratch.truncate(size);
        let source = &pixels.as_slice()[at..at + size];
        assert(source@ =~= chunk(before, index));
        let done = transform.apply(source, &mut scratch);
        let ghost unconverted = pixels@;
        take_chunk(pixels, at, scratch.as_slice(), done)?;
        proof {
            assert(chunk(pixels@, index) =~= scratch@);
            assert forall|i: int|
                0 <= i < index + 1 && i * ICC_CONVERSION_CHUNK_BYTES
                    < length implies super::icc::converts_to(
                transform@,
                #[trigger] chunk(before, i),
                chunk(pixels@, i),
            ) by {
                if i < index {
                    assert(chunk(pixels@, i) =~= chunk(unconverted, i));
                }
            }
            index = index + 1;
        }
        at += size;
    }
    Ok(())
}

/// The pixels handed to the colour conversion: packed, with alpha divided out.
pub open spec fn straight_pixels(packed: Seq<u8>, premultiplied: bool) -> Seq<u8> {
    if premultiplied {
        unpremultiplied(packed)
    } else {
        packed
    }
}

/// Whether `frame` is the packed frame of a plane.
pub open spec fn frame_of(
    source: Seq<u8>,
    stride: int,
    width: u32,
    height: u32,
    premultiplied: bool,
    profile: Option<Seq<u8>>,
    frame: RgbaFrame,
) -> bool {
    let packed = packed_rows(source, stride, 4 * width, height as int);
    &&& frame.width == width
    &&& frame.height == height
    &&& frame.pixels@.len() == 4 * width * height
    &&& opaque(frame.pixels@)
    &&& match profile {
        None => frame.pixels@ == composited(packed, premultiplied),
        Some(profile) => exists|converted: Seq<u8>|
            #![trigger composited(converted, false)]
            converted_chunks(profile, straight_pixels(packed, premultiplied), converted)
                && frame.pixels@ == composited(converted, false),
    }
}

/// Whether a plane is packed, or the fault it is refused with, where there is a
/// buffer for the frame or not, and scratch memory for its conversion or not.
pub open spec fn packing_judged(
    length: int,
    stride: int,
    width: u32,
    height: u32,
    limits: Limits,
    converts: bool,
    buffer: bool,
    scratch: bool,
) -> Result<(), Fault> {
    match plane_checked(length, stride, width as int, height as int, limits) {
        Err(fault) => Err(fault),
        Ok(()) => if !buffer {
            Err(Fault::Limit("decoded image memory"@))
        } else if converts && !scratch {
            Err(Fault::Limit("ICC conversion buffer"@))
        } else {
            Ok(())
        },
    }
}

/// Whether `result` is what packing a decoded plane owes: the fault of a plane
/// that fails the checks, and otherwise the packed frame, unless it has bytes and
/// memory for them or for their conversion is not available.
pub open spec fn frame_packed(
    source: Seq<u8>,
    stride: int,
    width: u32,
    height: u32,
    limits: Limits,
    premultiplied: bool,
    profile: Option<Seq<u8>>,
    result: Result<RgbaFrame, Error>,
) -> bool {
    match plane_checked(source.len() as int, stride, width as int, height as int, limits) {
        Err(fault) => result matches Err(error) && error@ == fault,
        Ok(()) => match result {
            Ok(frame) => frame_of(source, stride, width, height, premultiplied, profile, frame),
            Err(error) => {
                &&& width > 0
                &&& height > 0
                &&& {
                    ||| error@ == Fault::Limit("decoded image memory"@)
                    ||| profile is Some && error@ == Fault::Limit("ICC conversion buffer"@)
                }
            },
        },
    }
}

/// The profile of a transform, if there is one.
pub open spec fn profile_of(color: Option<&IccTransform>) -> Option<Seq<u8>> {
    match color {
        Some(transform) => Some(transform@),
        None => None,
    }
}

/// Packs one decoded plane into tightly packed, opaque RGBA8.
///
/// Alpha is composited over opaque black. An embedded ICC profile is converted
/// to sRGB before that, while the color channels are still straight, because a
/// nonlinear transform does not commute with premultiplication. A plane that
/// passes the checks can still fail where memory for the frame or for its
/// conversion is not available.
pub fn pack_rgba(
    source: &[u8],
    stride: usize,
    width: u32,
    height: u32,
    limits: &Limits,
    premultiplied_alpha: bool,
    color: Option<&IccTransform>,
) -> (result: Result<RgbaFrame, Error>)
    requires
        width > 0 || stride > 0,
    ensures
        frame_packed(
            source@,
            stride as int,
            width,
            height,
            *limits,
            premultiplied_alpha,
            profile_of(color),
            result,
        ),
{
    let row_bytes: usize = check_plane(source.len(), stride, width, height, limits)?;
    assert(0 <= row_bytes * height) by (nonlinear_arith)
        requires
            row_bytes >= 0,
            height >= 0,
    ;
    assert(4 * width * height == row_bytes * height) by (nonlinear_arith)
        requires
            row_bytes == 4 * width,
    ;
    assert(width == 0 || height == 0 ==> row_bytes * height == 0) by (nonlinear_arith)
        requires
            row_bytes == 4 * width,
    ;
    let size: usize = row_bytes * height as usize;
    let buffer = reserve_buffer(size);
    let scratch = if color.is_some() && buffer.is_some() {
        reserve_buffer(scratch_bytes(size))
    } else {
        None
    };
    pack_rgba_given(
        source,
        stride,
        width,
        height,
        limits,
        premultiplied_alpha,
        color,
        buffer,
        scratch,
    )
}

/// Packs one decoded plane where `buffer` is what there is room for the frame in,
/// and `scratch` what there is to convert its colors in.
pub fn pack_rgba_given(
    source: &[u8],
    stride: usize,
    width: u32,
    height: u32,
    limits: &Limits,
    premultiplied_alpha: bool,
    color: Option<&IccTransform>,
    buffer: Option<Vec<u8>>,
    scratch: Option<Vec<u8>>,
) -> (result: Result<RgbaFrame, Error>)
    requires
        width > 0 || stride > 0,
    ensures
        super::heic::outcome(result, ()) == packing_judged(
            source@.len() as int,
            stride as int,
            width,
            height,
            *limits,
            color is Some,
            buffer is Some,
            scratch is Some,
        ),
        result matches Ok(frame) ==> frame_of(
            source@,
            stride as int,
            width,
            height,
            premultiplied_alpha,
            profile_of(color),
            frame,
        ),
{
    let row_bytes: usize = check_plane(source.len(), stride, width, height, limits)?;
    assert(4 * width * height == row_bytes * height) by (nonlinear_arith)
        requires
            row_bytes == 4 * width,
    ;
    let mut pixels = match buffer {
        Some(buffer) => buffer,
        None => return Err(Error::Limit("decoded image memory")),
    };
    pixels.clear();
    pack_rows(source, stride, row_bytes, height, &mut pixels);
    proof {
        lemma_packed_length(source@, stride as int, row_bytes as int, height as int);
        assert(4 * width * height == 4 * (width * height)) by (nonlinear_arith);
    }
    match color {
        Some(transform) => {
            if premultiplied_alpha {
                unpremultiply(pixels.as_mut_slice());
            }
            convert_to_srgb_given(&mut pixels, transform, scratch)?;
            composite_over_black(pixels.as_mut_slice(), false);
        },
        None => {
            composite_over_black(pixels.as_mut_slice(), premultiplied_alpha);
        },
    }
    Ok(RgbaFrame { width, height, pixels })
}

// ---------------------------------------------------------------------------
// Laws
// ---------------------------------------------------------------------------

proof fn lemma_packed_length(source: Seq<u8>, stride: int, row_bytes: int, height: int)
    requires
        0 <= row_bytes <= stride,
        0 <= height,
        stride * height <= source.len(),
    ensures
        packed_rows(source, stride, row_bytes, height).len() == row_bytes * height,
    decreases height,
{
    if height > 0 {
        assert((height - 1) * stride + stride == stride * height) by (nonlinear_arith);
        assert(stride * (height - 1) == (height - 1) * stride) by (nonlinear_arith);
        assert(0 <= (height - 1) * stride) by (nonlinear_arith)
            requires
                height >= 1,
                stride >= 0,
        ;
        lemma_packed_length(source, stride, row_bytes, height - 1);
        assert(row_bytes * height == row_bytes * (height - 1) + row_bytes) by (nonlinear_arith);
    } else {
        assert(row_bytes * height == 0) by (nonlinear_arith)
            requires
                height == 0,
        ;
    }
}

/// Every byte of a packed plane is the byte of the same row and column.
pub proof fn law_packing_keeps_rows_and_columns(
    source: Seq<u8>,
    stride: int,
    row_bytes: int,
    height: int,
    row: int,
    column: int,
)
    requires
        0 <= row_bytes <= stride,
        stride * height <= source.len(),
        0 <= row < height,
        0 <= column < row_bytes,
    ensures
        packed_rows(source, stride, row_bytes, height).len() == row_bytes * height,
        packed_rows(source, stride, row_bytes, height)[row_bytes * row + column] == source[row
            * stride + column],
    decreases height,
{
    lemma_packed_length(source, stride, row_bytes, height);
    assert((height - 1) * stride + stride == stride * height) by (nonlinear_arith);
    assert(stride * (height - 1) == (height - 1) * stride) by (nonlinear_arith);
    assert(0 <= (height - 1) * stride) by (nonlinear_arith)
        requires
            height >= 1,
            stride >= 0,
    ;
    lemma_packed_length(source, stride, row_bytes, height - 1);
    if row < height - 1 {
        assert(row_bytes * row + column < row_bytes * (height - 1)) by (nonlinear_arith)
            requires
                0 <= column < row_bytes,
                row + 1 <= height - 1,
        ;
        assert(0 <= row_bytes * row) by (nonlinear_arith)
            requires
                0 <= row_bytes,
                0 <= row,
        ;
        law_packing_keeps_rows_and_columns(source, stride, row_bytes, height - 1, row, column);
    }
}

/// Pixels that are already opaque keep their color, whether they are divided by
/// alpha, composited, or both.
pub proof fn law_opaque_pixels_are_kept(pixels: Seq<u8>, premultiplied: bool)
    requires
        opaque(pixels),
    ensures
        composited(pixels, premultiplied) == pixels,
        unpremultiplied(pixels) == pixels,
{
    assert forall|i: int| 0 <= i < pixels.len() implies #[trigger] composited(
        pixels,
        premultiplied,
    )[i] == pixels[i] && unpremultiplied(pixels)[i] == pixels[i] by {
        if i < pixels.len() - pixels.len() % 4 {
            let pixel = i / 4;
            assert(i - i % 4 + 3 == 4 * pixel + 3);
            assert(pixels[4 * pixel + 3] == 255);
        }
    }
    assert(composited(pixels, premultiplied) =~= pixels);
    assert(unpremultiplied(pixels) =~= pixels);
}

/// What was multiplied by alpha comes back whole: dividing the alpha out and
/// multiplying by it again gives the same channel.
pub proof fn law_a_multiplied_channel_is_recovered(channel: u8, alpha: u8)
    ensures
        black_channel(channel, alpha) <= alpha,
        black_channel(straight_channel(black_channel(channel, alpha), alpha), alpha)
            == black_channel(channel, alpha),
{
    lemma_multiplied_bound(channel, alpha);
    lemma_multiplied_again(black_channel(channel, alpha), alpha);
}

/// Straight pixels multiplied by alpha, divided by it, and multiplied again are the
/// pixels multiplied once. Over opaque black the divided pixels look as the straight
/// ones do.
pub proof fn law_multiplied_pixels_are_recovered(pixels: Seq<u8>)
    ensures
        multiplied(unpremultiplied(multiplied(pixels))) == multiplied(pixels),
        composited(unpremultiplied(multiplied(pixels)), false) == composited(pixels, false),
        composited(multiplied(pixels), true) == composited(pixels, false),
{
    let once = multiplied(pixels);
    let divided = unpremultiplied(once);
    assert forall|i: int| 0 <= i < pixels.len() implies {
        &&& #[trigger] multiplied(divided)[i] == once[i]
        &&& composited(divided, false)[i] == composited(pixels, false)[i]
        &&& composited(once, true)[i] == composited(pixels, false)[i]
    } by {
        if i < pixels.len() - pixels.len() % 4 {
            let of = i - i % 4 + 3;
            assert(of % 4 == 3 && of < pixels.len());
            assert(once[of] == pixels[of] && divided[of] == pixels[of]);
            law_a_multiplied_channel_is_recovered(pixels[i], pixels[of]);
        }
    }
    assert(multiplied(divided) =~= once);
    assert(composited(divided, false) =~= composited(pixels, false));
    assert(composited(once, true) =~= composited(pixels, false));
}

proof fn lemma_multiplied_bound(channel: u8, alpha: u8)
    ensures
        0 <= (channel * alpha + 127) / 255 <= alpha,
{
    assert(0 <= channel * alpha <= 255 * alpha) by (nonlinear_arith)
        requires
            0 <= channel <= 255,
            0 <= alpha,
    ;
}

proof fn lemma_multiplied_again(channel: u8, alpha: u8)
    requires
        channel <= alpha,
    ensures
        black_channel(straight_channel(channel, alpha), alpha) == channel,
{
    if alpha != 0 && alpha != 255 {
        let a = alpha as int;
        let raised = channel * 255 + a / 2;
        let divided = raised / a;
        assert(divided * a <= raised < divided * a + a && divided <= 255) by (nonlinear_arith)
            requires
                divided == raised / a,
                a > 0,
                0 <= raised < 256 * a,
        ;
        assert(divided >= 0) by (nonlinear_arith)
            requires
                divided == raised / a,
                a > 0,
                raised >= 0,
        ;
    } else if alpha == 0 {
        assert(straight_channel(channel, alpha) * alpha == 0) by (nonlinear_arith)
            requires
                alpha == 0,
        ;
    }
}

/// A fully transparent pixel shows as opaque black.
pub proof fn law_transparent_pixels_are_black(pixels: Seq<u8>, pixel: int)
    requires
        0 <= pixel,
        4 * pixel + 3 < pixels.len(),
        pixels[4 * pixel + 3] == 0,
    ensures
        composited(pixels, false)[4 * pixel] == 0,
        composited(pixels, false)[4 * pixel + 1] == 0,
        composited(pixels, false)[4 * pixel + 2] == 0,
        composited(pixels, false)[4 * pixel + 3] == 255,
{
    assert(alpha_of(pixels, 4 * pixel) == 0);
    assert(alpha_of(pixels, 4 * pixel + 1) == 0);
    assert(alpha_of(pixels, 4 * pixel + 2) == 0);
}

/// The colour recovered from a multiplied channel is the nearest one, halves
/// upwards: multiplied by its alpha again, it is at most half an alpha off. Nothing
/// is brighter than full.
pub proof fn law_recovered_channels_are_the_nearest(channel: u8, alpha: u8)
    requires
        alpha > 0,
    ensures
        channel >= alpha ==> straight_channel(channel, alpha) == 255 || alpha == 255,
        channel <= alpha ==> -(alpha as int) < 2 * (straight_channel(channel, alpha) * alpha
            - channel * 255) <= alpha,
{
    if alpha < 255 {
        let divided = (channel * 255 + alpha as int / 2) / alpha as int;
        let left = (channel * 255 + alpha as int / 2) % alpha as int;
        assert(divided * alpha + left == channel * 255 + alpha as int / 2 && 0 <= left < alpha)
            by (nonlinear_arith)
            requires
                0 < alpha,
                divided == (channel * 255 + alpha as int / 2) / alpha as int,
                left == (channel * 255 + alpha as int / 2) % alpha as int,
        ;
        assert(channel >= alpha ==> divided >= 255) by (nonlinear_arith)
            requires
                0 < alpha,
                divided * alpha + left == channel * 255 + alpha as int / 2,
                0 <= left < alpha,
        ;
        assert(channel <= alpha ==> divided <= 255) by (nonlinear_arith)
            requires
                0 < alpha,
                divided * alpha + left == channel * 255 + alpha as int / 2,
                0 <= left < alpha,
        ;
    } else {
        assert(channel * 255 == channel * alpha);
    }
}

/// A channel over black is the nearest to its share of the alpha.
pub proof fn law_channels_over_black_are_the_nearest(channel: u8, alpha: u8)
    ensures
        -255 < 2 * (black_channel(channel, alpha) * 255 - channel * alpha) < 255,
{
    assert(0 <= channel * alpha <= 255 * 255) by (nonlinear_arith)
        requires
            0 <= channel <= 255,
            0 <= alpha <= 255,
    ;
}

/// Every colour channel of every whole pixel goes by the alpha of its own pixel:
/// composited over black it is its share of the alpha, or what it is where the
/// alpha is already in it; recovered it is the nearest colour. The pixel is opaque
/// once composited, and keeps its alpha otherwise.
pub proof fn law_every_channel_goes_by_its_own_alpha(pixels: Seq<u8>, pixel: int, channel: int)
    requires
        0 <= pixel,
        4 * pixel + 3 < pixels.len(),
        0 <= channel < 3,
    ensures
        ({
            let colour = pixels[4 * pixel + channel];
            let alpha = pixels[4 * pixel + 3];
            &&& -255 < 2 * (composited(pixels, false)[4 * pixel + channel] * 255 - colour * alpha)
                < 255
            &&& composited(pixels, true)[4 * pixel + channel] == colour
            &&& composited(pixels, false)[4 * pixel + 3] == 255
            &&& composited(pixels, true)[4 * pixel + 3] == 255
            &&& unpremultiplied(pixels)[4 * pixel + 3] == alpha
            &&& alpha == 0 ==> unpremultiplied(pixels)[4 * pixel + channel] == 0
            &&& 0 < alpha && colour > alpha ==> unpremultiplied(pixels)[4 * pixel + channel] == 255
            &&& 0 < alpha && colour <= alpha ==> -(alpha as int) < 2 * (unpremultiplied(
                pixels,
            )[4 * pixel + channel] * alpha - colour * 255) <= alpha
        }),
{
    let at = 4 * pixel + channel;
    assert(at % 4 == channel && at - at % 4 + 3 == 4 * pixel + 3);
    assert((4 * pixel + 3) % 4 == 3);
    let colour = pixels[at];
    let alpha = pixels[4 * pixel + 3];
    law_channels_over_black_are_the_nearest(colour, alpha);
    if alpha > 0 {
        law_recovered_channels_are_the_nearest(colour, alpha);
    }
}

/// Neither operation changes how much there is, nor what follows the last whole
/// pixel.
pub proof fn law_broken_pixels_are_left_alone(pixels: Seq<u8>, premultiplied: bool, index: int)
    requires
        0 <= index < pixels.len(),
        4 * (index / 4) + 4 > pixels.len(),
    ensures
        composited(pixels, premultiplied).len() == pixels.len(),
        composited(pixels, premultiplied)[index] == pixels[index],
        unpremultiplied(pixels).len() == pixels.len(),
        unpremultiplied(pixels)[index] == pixels[index],
{
}

/// A plane is accepted where every row of the picture lies in it and the packed
/// picture is within the limit, and only there.
pub proof fn law_planes_hold_their_picture(
    length: usize,
    stride: usize,
    width: u32,
    height: u32,
    limits: Limits,
)
    requires
        height > 0,
    ensures
        plane_checked(length as int, stride as int, width as int, height as int, limits) is Ok <==> {
            &&& 4 * width <= stride
            &&& stride * height <= length
            &&& 4 * (width * height) <= limits.max_output_bytes
        },
{
    assert(4 * width * height == 4 * (width * height)) by (nonlinear_arith);
}

/// A frame without a profile shows the picture over black, pixel by pixel: a channel that
/// holds its alpha already as it is, any other by its share of the alpha.
pub proof fn law_frames_show_their_plane(
    source: Seq<u8>,
    stride: int,
    width: u32,
    height: u32,
    premultiplied: bool,
    frame: RgbaFrame,
    row: int,
    column: int,
    channel: int,
)
    requires
        frame_of(source, stride, width, height, premultiplied, None, frame),
        4 * width <= stride,
        stride * height <= source.len(),
        0 <= row < height,
        0 <= column < width,
        0 <= channel < 3,
    ensures
        ({
            let at = row * stride + 4 * column;
            let to = 4 * width * row + 4 * column;
            let colour = source[at + channel];
            let alpha = source[at + 3];
            &&& frame.width == width && frame.height == height
            &&& frame.pixels@.len() == 4 * width * height
            &&& frame.pixels@[to + 3] == 255
            &&& premultiplied ==> frame.pixels@[to + channel] == colour
            &&& !premultiplied ==> -255 < 2 * (frame.pixels@[to + channel] * 255 - colour * alpha)
                < 255
        }),
{
    let packed = packed_rows(source, stride, 4 * width, height as int);
    law_packing_keeps_rows_and_columns(
        source,
        stride,
        4 * width,
        height as int,
        row,
        4 * column + channel,
    );
    law_packing_keeps_rows_and_columns(
        source,
        stride,
        4 * width,
        height as int,
        row,
        4 * column + 3,
    );
    let pixel = width * row + column;
    assert(4 * width * row == 4 * (width * row)) by (nonlinear_arith);
    assert(0 <= width * row && width * row + width <= width * height) by (nonlinear_arith)
        requires
            0 <= row,
            row + 1 <= height,
            0 <= width,
    ;
    assert((4 * width) * height == 4 * (width * height)) by (nonlinear_arith);
    law_every_channel_goes_by_its_own_alpha(packed, pixel, channel);
}

/// A conversion works on straight color: the alpha is taken out of channels that hold it,
/// and other channels are converted as they are.
pub proof fn law_conversions_work_on_straight_color(packed: Seq<u8>)
    ensures
        straight_pixels(packed, true) == unpremultiplied(packed),
        straight_pixels(packed, false) == packed,
{
}

/// The chunks of a conversion make up the buffer: every byte lies in the one chunk its
/// place says, and a chunk has a mebibyte, but for the last.
pub proof fn law_chunks_make_up_the_buffer(pixels: Seq<u8>, at: int)
    requires
        0 <= at < pixels.len(),
    ensures
        ({
            let part = chunk(pixels, at / 1_048_576);
            &&& at % 1_048_576 < part.len() <= 1_048_576
            &&& part[at % 1_048_576] == pixels[at]
            &&& (at / 1_048_576 + 1) * 1_048_576 <= pixels.len() ==> part.len() == 1_048_576
        }),
        scratch_size(pixels.len()) <= 1_048_576,
        scratch_size(pixels.len()) <= pixels.len(),
        pixels.len() <= 1_048_576 ==> scratch_size(pixels.len()) == pixels.len(),
        pixels.len() >= 1_048_576 ==> scratch_size(pixels.len()) == 1_048_576,
        chunk(pixels, at / 1_048_576).len() <= scratch_size(pixels.len()),
{
}

/// A plane is packed where it passes the checks and there is memory for the frame, and for
/// the conversion where there is one.
pub proof fn law_planes_are_packed_where_there_is_memory(
    length: int,
    stride: int,
    width: u32,
    height: u32,
    limits: Limits,
    converts: bool,
    buffer: bool,
    scratch: bool,
)
    ensures
        ({
            let judged = packing_judged(
                length,
                stride,
                width,
                height,
                limits,
                converts,
                buffer,
                scratch,
            );
            let checked = plane_checked(length, stride, width as int, height as int, limits);
            &&& judged is Ok <==> checked is Ok && buffer && (converts ==> scratch)
            &&& checked is Err ==> judged == checked
            &&& checked is Ok && !buffer ==> judged == Err::<(), Fault>(
                Fault::Limit("decoded image memory"@),
            )
            &&& checked is Ok && buffer && converts && !scratch ==> judged == Err::<(), Fault>(
                Fault::Limit("ICC conversion buffer"@),
            )
        }),
{
}

} // verus!
