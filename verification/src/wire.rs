//! Integers inside a byte buffer.

use vstd::prelude::*;

verus! {

/// The unsigned big-endian integer held by the `width` bytes at `offset`.
pub open spec fn be(bytes: Seq<u8>, offset: int, width: nat) -> nat
    decreases width,
{
    if width == 0 {
        0
    } else {
        be(bytes, offset, (width - 1) as nat) * 256 + bytes[offset + width - 1] as nat
    }
}

/// Two bytes as a big-endian integer.
pub fn be_u16(bytes: &[u8], offset: usize) -> (value: u16)
    requires
        offset + 2 <= bytes@.len(),
    ensures
        value == be(bytes@, offset as int, 2),
{
    proof {
        reveal_with_fuel(be, 3);
    }
    (bytes[offset] as u16) * 256 + bytes[offset + 1] as u16
}

/// Four bytes as a big-endian integer.
pub fn be_u32(bytes: &[u8], offset: usize) -> (value: u32)
    requires
        offset + 4 <= bytes@.len(),
    ensures
        value == be(bytes@, offset as int, 4),
{
    proof {
        reveal_with_fuel(be, 5);
    }
    (bytes[offset] as u32) * 0x100_0000 + (bytes[offset + 1] as u32) * 0x1_0000 + (bytes[offset
        + 2] as u32) * 0x100 + bytes[offset + 3] as u32
}

/// Eight bytes as a big-endian integer.
pub fn be_u64(bytes: &[u8], offset: usize) -> (value: u64)
    requires
        offset + 8 <= bytes@.len(),
    ensures
        value == be(bytes@, offset as int, 8),
{
    proof {
        reveal_with_fuel(be, 9);
        assert(bytes.len() == bytes@.len());
    }
    (be_u32(bytes, offset) as u64) * 0x1_0000_0000 + be_u32(bytes, offset + 4) as u64
}

/// A field of one, two, or four bytes never exceeds its width.
pub proof fn lemma_be_fits(bytes: Seq<u8>, offset: int)
    ensures
        be(bytes, offset, 1) <= u8::MAX,
        be(bytes, offset, 2) <= u16::MAX,
        be(bytes, offset, 4) <= u32::MAX,
        be(bytes, offset, 8) <= u64::MAX,
{
    reveal_with_fuel(be, 9);
}

/// A field of at most eight bytes fits sixty-four bits.
pub proof fn lemma_be_word(bytes: Seq<u8>, offset: int, width: nat)
    requires
        width <= 8,
    ensures
        be(bytes, offset, width) <= u64::MAX,
{
    reveal_with_fuel(be, 9);
    if width == 0 || width == 1 || width == 2 || width == 3 {
    } else if width == 4 || width == 5 {
    } else if width == 6 || width == 7 {
    } else {
        assert(width == 8);
    }
}

/// The unsigned little-endian integer held by the `width` bytes at `offset`.
pub open spec fn le(bytes: Seq<u8>, offset: int, width: nat) -> nat
    decreases width,
{
    if width == 0 {
        0
    } else {
        bytes[offset] as nat + 256 * le(bytes, offset + 1, (width - 1) as nat)
    }
}

/// Four bytes as a little-endian integer.
pub fn le_u32(bytes: &[u8], offset: usize) -> (value: u32)
    requires
        offset + 4 <= bytes@.len(),
    ensures
        value == le(bytes@, offset as int, 4),
{
    proof {
        reveal_with_fuel(le, 5);
    }
    bytes[offset] as u32 + (bytes[offset + 1] as u32) * 0x100 + (bytes[offset + 2] as u32)
        * 0x1_0000 + (bytes[offset + 3] as u32) * 0x100_0000
}

/// Appends an integer as four little-endian bytes.
pub fn push_le_u32(bytes: &mut Vec<u8>, value: u32)
    ensures
        final(bytes)@.len() == old(bytes)@.len() + 4,
        final(bytes)@.take(old(bytes)@.len() as int) == old(bytes)@,
        le(final(bytes)@, old(bytes)@.len() as int, 4) == value,
{
    bytes.push((value % 0x100) as u8);
    bytes.push((value / 0x100 % 0x100) as u8);
    bytes.push((value / 0x1_0000 % 0x100) as u8);
    bytes.push((value / 0x100_0000) as u8);
    proof {
        reveal_with_fuel(le, 5);
    }
    assert(bytes@.take(old(bytes)@.len() as int) =~= old(bytes)@);
}

/// An integer depends on its own bytes only.
pub proof fn lemma_le_depends_on_its_bytes(
    left: Seq<u8>,
    left_offset: int,
    right: Seq<u8>,
    right_offset: int,
    width: nat,
)
    requires
        0 <= left_offset && left_offset + width <= left.len(),
        0 <= right_offset && right_offset + width <= right.len(),
        left.subrange(left_offset, left_offset + width) == right.subrange(
            right_offset,
            right_offset + width,
        ),
    ensures
        le(left, left_offset, width) == le(right, right_offset, width),
    decreases width,
{
    if width > 0 {
        let ours = left.subrange(left_offset, left_offset + width);
        let theirs = right.subrange(right_offset, right_offset + width);
        assert(ours[0] == theirs[0]);
        assert(left.subrange(left_offset + 1, left_offset + width) =~= ours.skip(1));
        assert(right.subrange(right_offset + 1, right_offset + width) =~= theirs.skip(1));
        lemma_le_depends_on_its_bytes(
            left,
            left_offset + 1,
            right,
            right_offset + 1,
            (width - 1) as nat,
        );
    }
}

/// A big-endian integer has the bytes for its digits, the first one the most
/// significant, and no others.
pub proof fn law_big_endian_bytes_are_digits(bytes: Seq<u8>, offset: int, width: nat, index: nat)
    requires
        index < width,
    ensures
        be(bytes, offset, width) < vstd::arithmetic::power::pow(256, width),
        be(bytes, offset, width) as int / vstd::arithmetic::power::pow(
            256,
            (width - 1 - index) as nat,
        ) % 256 == bytes[offset + index],
    decreases width,
{
    reveal(vstd::arithmetic::power::pow);
    let before = be(bytes, offset, (width - 1) as nat) as int;
    let value = be(bytes, offset, width) as int;
    let last = bytes[offset + width - 1] as int;
    assert(value == before * 256 + last);
    if width > 1 {
        let inner = if index + 1 < width {
            index
        } else {
            (width - 2) as nat
        };
        law_big_endian_bytes_are_digits(bytes, offset, (width - 1) as nat, inner);
    }
    let scale = vstd::arithmetic::power::pow(256, (width - 1) as nat);
    assert(vstd::arithmetic::power::pow(256, width) == 256 * scale);
    if index + 1 == width {
        assert(vstd::arithmetic::power::pow(256, 0) == 1);
        assert((width - 1 - index) as nat == 0);
        assert(value % 256 == last);
        assert(offset + index == offset + width - 1);
    } else {
        let rest = (width - 2 - index) as nat;
        assert(((width - 1) as nat - 1 - index) as nat == rest);
        vstd::arithmetic::power::lemma_pow_positive(256, rest);
        let divisor = vstd::arithmetic::power::pow(256, rest);
        assert(vstd::arithmetic::power::pow(256, (width - 1 - index) as nat) == 256 * divisor);
        vstd::arithmetic::div_mod::lemma_div_denominator(value, 256, divisor);
        assert(value / 256 == before);
    }
}

/// A little-endian integer has the bytes for its digits, the first one the least
/// significant, and no others.
pub proof fn law_little_endian_bytes_are_digits(
    bytes: Seq<u8>,
    offset: int,
    width: nat,
    index: nat,
)
    requires
        index < width,
    ensures
        le(bytes, offset, width) < vstd::arithmetic::power::pow(256, width),
        le(bytes, offset, width) as int / vstd::arithmetic::power::pow(256, index) % 256
            == bytes[offset + index],
    decreases width,
{
    reveal(vstd::arithmetic::power::pow);
    let rest = le(bytes, offset + 1, (width - 1) as nat) as int;
    let value = le(bytes, offset, width) as int;
    assert(value == bytes[offset] as int + 256 * rest);
    if width > 1 {
        let inner = if index > 0 {
            (index - 1) as nat
        } else {
            0
        };
        law_little_endian_bytes_are_digits(bytes, offset + 1, (width - 1) as nat, inner);
    }
    let scale = vstd::arithmetic::power::pow(256, (width - 1) as nat);
    assert(vstd::arithmetic::power::pow(256, width) == 256 * scale);
    if index == 0 {
        assert(vstd::arithmetic::power::pow(256, 0) == 1);
    } else {
        let before = (index - 1) as nat;
        vstd::arithmetic::power::lemma_pow_positive(256, before);
        let divisor = vstd::arithmetic::power::pow(256, before);
        assert(vstd::arithmetic::power::pow(256, index) == 256 * divisor);
        vstd::arithmetic::div_mod::lemma_div_denominator(value, 256, divisor);
        assert(value / 256 == rest);
        assert(bytes[offset + 1 + before] == bytes[offset + index]);
    }
}

} // verus!
