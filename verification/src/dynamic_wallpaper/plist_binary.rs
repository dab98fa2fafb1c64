//! Structural preflight for binary property lists.
//!
//! The object graph and its expansion are validated before the property list
//! is read into values. An object may be referenced more than once, so what
//! the reader would materialize can exceed the encoded list by far.

use vstd::prelude::*;

use super::heic::{Error, Fault, Limits};

verus! {

// ---------------------------------------------------------------------------
// Model
// ---------------------------------------------------------------------------

/// Where a binary property list keeps its objects.
#[derive(Clone, Copy)]
pub struct Trailer {
    /// Bytes of one entry in the offset table.
    pub offset_size: usize,
    /// Bytes of one object reference.
    pub reference_size: usize,
    pub object_count: usize,
    pub root: usize,
    pub table_offset: usize,
}

/// `bplist00`.
pub open spec fn magic() -> Seq<u8> {
    seq![0x62u8, 0x70, 0x6c, 0x69, 0x73, 0x74, 0x30, 0x30]
}

/// Whether the bytes announce a binary property list.
pub open spec fn announced(bytes: Seq<u8>) -> bool {
    bytes.len() >= 8 && bytes.subrange(0, 8) == magic()
}

/// The offset of the object `index`.
pub open spec fn object_offset(bytes: Seq<u8>, trailer: Trailer, index: int) -> int {
    crate::wire::be(
        bytes,
        trailer.table_offset + index * trailer.offset_size,
        trailer.offset_size as nat,
    ) as int
}

/// Whether every object starts between the magic and the offset table.
pub open spec fn offsets_valid(bytes: Seq<u8>, trailer: Trailer, count: int) -> bool {
    forall|index: int|
        0 <= index < count ==> 8 <= #[trigger] object_offset(bytes, trailer, index)
            < trailer.table_offset
}

/// The trailer in the last thirty-two bytes, once everything it says is usable.
pub open spec fn trailer_read(bytes: Seq<u8>, limits: Limits) -> Result<Trailer, Fault> {
    let at = bytes.len() - 32;
    let offset_size = bytes[at + 6];
    let reference_size = bytes[at + 7];
    let object_count = crate::wire::be(bytes, at + 8, 8);
    let root = crate::wire::be(bytes, at + 16, 8);
    let table_offset = crate::wire::be(bytes, at + 24, 8);
    let trailer = Trailer {
        offset_size: offset_size as usize,
        reference_size: reference_size as usize,
        object_count: object_count as usize,
        root: root as usize,
        table_offset: table_offset as usize,
    };
    if bytes.len() < 40 || !announced(bytes) {
        Err(Fault::Metadata("property is not a binary property list"@))
    } else if !(1 <= offset_size <= 8) || !(1 <= reference_size <= 8) {
        Err(Fault::Metadata("invalid property list integer width"@))
    } else if object_count == 0 || object_count > limits.max_plist_objects {
        Err(Fault::Limit("property list object count"@))
    } else if root >= object_count {
        Err(Fault::Metadata("invalid root object"@))
    } else if table_offset < 8 || table_offset + object_count * offset_size != at {
        Err(Fault::Metadata("invalid offset table"@))
    } else if !offsets_valid(bytes, trailer, object_count as int) {
        Err(Fault::Metadata("invalid object offset"@))
    } else {
        Ok(trailer)
    }
}

/// Two to the power `exponent`.
pub open spec fn power(exponent: nat) -> nat
    decreases exponent,
{
    if exponent == 0 {
        1
    } else {
        2 * power((exponent - 1) as nat)
    }
}

/// Whether `length` bytes from `start` end by `end`.
pub open spec fn in_range(start: int, length: int, end: int) -> Result<(), Fault> {
    if start + length > end {
        Err(Fault::Metadata("truncated property list object"@))
    } else {
        Ok(())
    }
}

/// The element count of the object at `offset`, and where its payload starts.
pub open spec fn length_read(bytes: Seq<u8>, offset: int, info: int, end: int) -> Result<
    (int, int),
    Fault,
> {
    let marker = bytes[offset + 1] as int;
    let width = power((marker % 16) as nat);
    let length = crate::wire::be(bytes, offset + 2, width) as int;
    if info < 15 {
        Ok((info, offset + 1))
    } else if offset + 2 > end {
        Err(Fault::Metadata("truncated property list object"@))
    } else if marker / 16 != 1 || marker % 16 > 3 {
        Err(Fault::Metadata("invalid extended object length"@))
    } else if length > usize::MAX {
        Err(Fault::Metadata("object length is too large"@))
    } else if offset + 2 + width > end {
        Err(Fault::Metadata("truncated property list object"@))
    } else {
        Ok((length, offset + 2 + width))
    }
}

/// What one object costs beyond itself, and the references it holds.
pub struct Contents {
    /// Bytes its payload expands to.
    pub bytes: int,
    /// Where its references start.
    pub start: int,
    /// How many references it holds.
    pub references: int,
}

/// The object at `offset`.
pub open spec fn contents(bytes: Seq<u8>, trailer: Trailer, offset: int) -> Result<
    Contents,
    Fault,
> {
    let end = trailer.table_offset as int;
    let marker = bytes[offset] as int;
    let kind = marker / 16;
    let info = marker % 16;
    let plain = Contents { bytes: 0, start: 0, references: 0 };
    if kind == 0 {
        if info == 0 || info == 8 || info == 9 {
            Ok(plain)
        } else {
            Err(Fault::Metadata("unsupported property list primitive"@))
        }
    } else if kind == 1 || kind == 2 {
        match in_range(offset + 1, power(info as nat) as int, end) {
            Err(fault) => Err(fault),
            Ok(_) => Ok(plain),
        }
    } else if kind == 3 {
        if info != 3 {
            Err(Fault::Metadata("invalid date object"@))
        } else {
            match in_range(offset + 1, 8, end) {
                Err(fault) => Err(fault),
                Ok(_) => Ok(plain),
            }
        }
    } else if 4 <= kind <= 6 {
        match length_read(bytes, offset, info, end) {
            Err(fault) => Err(fault),
            Ok((length, start)) => {
                let size = if kind == 6 {
                    2 * length
                } else {
                    length
                };
                let expanded = if kind == 6 {
                    3 * length
                } else {
                    length
                };
                if size > usize::MAX {
                    Err(Fault::Metadata("invalid data object"@))
                } else {
                    match in_range(start, size, end) {
                        Err(fault) => Err(fault),
                        Ok(_) => Ok(Contents { bytes: expanded, ..plain }),
                    }
                }
            },
        }
    } else if kind == 8 {
        match in_range(offset + 1, info + 1, end) {
            Err(fault) => Err(fault),
            Ok(_) => Ok(plain),
        }
    } else if kind == 10 || kind == 12 || kind == 13 {
        match length_read(bytes, offset, info, end) {
            Err(fault) => Err(fault),
            Ok((length, start)) => {
                let references = if kind == 13 {
                    2 * length
                } else {
                    length
                };
                if references > usize::MAX {
                    Err(Fault::Metadata("invalid dictionary"@))
                } else if references * trailer.reference_size > usize::MAX {
                    Err(Fault::Metadata("invalid reference list"@))
                } else {
                    match in_range(start, references * trailer.reference_size, end) {
                        Err(fault) => Err(fault),
                        Ok(_) => Ok(Contents { bytes: 16 * references, start, references }),
                    }
                }
            },
        }
    } else {
        Err(Fault::Metadata("unsupported property list object"@))
    }
}

/// The reference `index` of a list that starts at `start`.
pub open spec fn reference_at(bytes: Seq<u8>, trailer: Trailer, start: int, index: int) -> int {
    crate::wire::be(
        bytes,
        start + index * trailer.reference_size,
        trailer.reference_size as nat,
    ) as int
}

/// Whether every reference of an object names an object.
pub open spec fn references_valid(
    bytes: Seq<u8>,
    trailer: Trailer,
    object: Contents,
    count: int,
) -> bool {
    forall|index: int|
        0 <= index < count ==> #[trigger] reference_at(bytes, trailer, object.start, index)
            < trailer.object_count
}

/// An object that is still to be expanded, and how deep it lies.
#[derive(Clone, Copy)]
pub struct Pending {
    pub reference: usize,
    pub depth: usize,
}

/// `stack` with the references of an object on top.
pub open spec fn pushed(
    bytes: Seq<u8>,
    trailer: Trailer,
    object: Contents,
    count: int,
    depth: int,
    stack: Seq<Pending>,
) -> Seq<Pending> {
    stack + Seq::new(
        count as nat,
        |index: int|
            Pending {
                reference: reference_at(bytes, trailer, object.start, index) as usize,
                depth: depth as usize,
            },
    )
}

/// What expanding the objects on `stack` comes to, after `objects` objects and
/// `memory` bytes: the totals, or the first ceiling or fault met. Each object is
/// expanded once for every reference to it, the last reference first.
pub open spec fn expanded(
    bytes: Seq<u8>,
    trailer: Trailer,
    limits: Limits,
    stack: Seq<Pending>,
    objects: nat,
    memory: nat,
) -> Result<(nat, nat), Fault>
    decreases limits.max_expanded_plist_objects - objects,
{
    if stack.len() == 0 {
        Ok((objects, memory))
    } else if objects + 1 > limits.max_expanded_plist_objects {
        Err(Fault::Limit("expanded property list object count"@))
    } else if memory + 64 > limits.max_expanded_plist_bytes {
        Err(Fault::Limit("expanded property list memory"@))
    } else if stack.last().depth > limits.max_plist_depth {
        Err(Fault::Limit("property list nesting depth"@))
    } else {
        match contents(
            bytes,
            trailer,
            object_offset(bytes, trailer, stack.last().reference as int),
        ) {
            Err(fault) => Err(fault),
            Ok(object) => if memory + 64 + object.bytes > limits.max_expanded_plist_bytes {
                Err(Fault::Limit("expanded property list memory"@))
            } else if object.references > 0 && objects + 1 + (stack.len() - 1) + object.references
                > limits.max_expanded_plist_objects {
                Err(Fault::Limit("expanded property list object count"@))
            } else if !references_valid(bytes, trailer, object, object.references) {
                Err(Fault::Metadata("invalid object reference"@))
            } else {
                expanded(
                    bytes,
                    trailer,
                    limits,
                    pushed(
                        bytes,
                        trailer,
                        object,
                        object.references,
                        stack.last().depth + 1,
                        stack.drop_last(),
                    ),
                    objects + 1,
                    (memory + 64 + object.bytes) as nat,
                )
            },
        }
    }
}

/// The verdict on a whole list: the objects and bytes it expands to, or why it
/// is refused.
pub open spec fn inspected(bytes: Seq<u8>, limits: Limits) -> Result<(nat, nat), Fault> {
    match trailer_read(bytes, limits) {
        Err(fault) => Err(fault),
        Ok(trailer) => expanded(
            bytes,
            trailer,
            limits,
            seq![Pending { reference: trailer.root, depth: 1 }],
            0,
            0,
        ),
    }
}

// ---------------------------------------------------------------------------
// Execution
// ---------------------------------------------------------------------------

fn invalid(text: &'static str) -> (error: Error)
    ensures
        error@ == Fault::Metadata(text@),
{
    Error::Metadata(text.to_owned())
}

/// The big-endian integer in `length` bytes at `start`. Only the last eight
/// bytes of a longer field count.
pub fn read_be(bytes: &[u8], start: usize, length: usize) -> (result: Result<u64, Error>)
    ensures
        match result {
            Ok(value) => start + length <= bytes@.len() && value == crate::wire::be(
                bytes@,
                start as int,
                length as nat,
            ) % 0x1_0000_0000_0000_0000,
            Err(error) => if start + length > usize::MAX {
                error@ == Fault::Metadata("integer offset overflow"@)
            } else {
                start + length > bytes@.len() && error@ == Fault::Metadata(
                    "truncated property list integer"@,
                )
            },
        },
{
    let size: usize = bytes.len();
    let end: usize = match start.checked_add(length) {
        Some(end) => end,
        None => return Err(invalid("integer offset overflow")),
    };
    if end > size {
        return Err(invalid("truncated property list integer"));
    }
    let mut value: u64 = 0;
    let mut index: usize = 0;
    while index < length
        invariant
            index <= length,
            start + length <= bytes@.len(),
            bytes@.len() == size,
            value == crate::wire::be(bytes@, start as int, index as nat)
                % 0x1_0000_0000_0000_0000,
        decreases length - index,
    {
        let byte: u8 = bytes[start + index];
        proof {
            let before = crate::wire::be(bytes@, start as int, index as nat);
            lemma_shifted(before as int, byte as int);
            assert(crate::wire::be(bytes@, start as int, (index + 1) as nat) == before * 256
                + byte as nat);
        }
        value = (value % 0x100_0000_0000_0000) * 256 + byte as u64;
        index += 1;
    }
    Ok(value)
}

proof fn lemma_shifted(value: int, byte: int)
    requires
        0 <= value,
        0 <= byte < 256,
    ensures
        (value * 256 + byte) % 0x1_0000_0000_0000_0000 == (value % 0x1_0000_0000_0000_0000
            % 0x100_0000_0000_0000) * 256 + byte,
{
    let low = value % 0x100_0000_0000_0000;
    let high = value / 0x100_0000_0000_0000;
    assert(value == high * 0x100_0000_0000_0000 + low);
    assert(value * 256 + byte == high * 0x1_0000_0000_0000_0000 + (low * 256 + byte));
    vstd::arithmetic::div_mod::lemma_fundamental_div_mod_converse(
        value * 256 + byte,
        0x1_0000_0000_0000_0000,
        high,
        low * 256 + byte,
    );
    assert(value % 0x1_0000_0000_0000_0000 % 0x100_0000_0000_0000 == low);
}

/// Refuses a range that leaves the object area.
pub fn checked_range(start: usize, length: usize, end: usize) -> (result: Result<(), Error>)
    ensures
        super::heic::outcome(result, ()) == in_range(start as int, length as int, end as int),
{
    match start.checked_add(length) {
        Some(stop) => if stop > end {
            Err(invalid("truncated property list object"))
        } else {
            Ok(())
        },
        None => Err(invalid("truncated property list object")),
    }
}

/// Adds one expansion to the memory total.
pub fn charge_expanded_bytes(total: &mut usize, amount: usize, limits: &Limits) -> (result: Result<
    (),
    Error,
>)
    ensures
        match result {
            Ok(()) => *final(total) == *old(total) + amount && *final(total)
                <= limits.max_expanded_plist_bytes,
            Err(error) => *old(total) + amount > limits.max_expanded_plist_bytes && error@
                == Fault::Limit("expanded property list memory"@),
        },
{
    match total.checked_add(amount) {
        Some(sum) => {
            *total = sum;
            if sum > limits.max_expanded_plist_bytes {
                return Err(Error::Limit("expanded property list memory"));
            }
            Ok(())
        },
        None => Err(Error::Limit("expanded property list memory")),
    }
}

proof fn lemma_power(exponent: nat, bound: nat)
    requires
        exponent <= bound,
    ensures
        power(exponent) <= power(bound),
    decreases bound,
{
    if exponent < bound {
        lemma_power(exponent, (bound - 1) as nat);
    }
}

fn two_to(exponent: u8) -> (value: usize)
    requires
        exponent < 16,
    ensures
        value == power(exponent as nat),
        value <= 0x8000,
{
    proof {
        reveal_with_fuel(power, 17);
        assert(power(15) == 0x8000);
    }
    let mut value: usize = 1;
    let mut index: u8 = 0;
    while index < exponent
        invariant
            index <= exponent < 16,
            value == power(index as nat),
            value <= 0x8000,
            power(15) == 0x8000,
        decreases exponent - index,
    {
        proof {
            lemma_power((index + 1) as nat, 15);
        }
        value = value * 2;
        index += 1;
    }
    value
}

/// The element count of the object at `offset`, and where its payload starts.
fn object_length(bytes: &[u8], offset: usize, info: u8, end: usize) -> (result: Result<
    (usize, usize),
    Error,
>)
    requires
        info < 16,
        offset < end,
        end + 9 <= bytes@.len(),
    ensures
        super::heic::outcome(
            result,
            (result->Ok_0.0 as int, result->Ok_0.1 as int),
        ) == length_read(bytes@, offset as int, info as int, end as int),
{
    let size: usize = bytes.len();
    if info < 15 {
        return Ok((info as usize, offset + 1));
    }
    checked_range(offset + 1, 1, end)?;
    let marker: u8 = bytes[offset + 1];
    if marker / 16 != 1 || marker % 16 > 3 {
        return Err(invalid("invalid extended object length"));
    }
    let width: usize = two_to(marker % 16);
    proof {
        reveal_with_fuel(power, 4);
        assert(width <= 8);
        crate::wire::lemma_be_word(bytes@, offset + 2, width as nat);
    }
    let length: u64 = read_be(bytes, offset + 2, width)?;
    if length > usize::MAX as u64 {
        return Err(invalid("object length is too large"));
    }
    checked_range(offset + 2, width, end)?;
    Ok((length as usize, offset + 2 + width))
}

/// Whether the bytes announce a binary property list.
pub fn is_binary_plist(bytes: &[u8]) -> (answer: bool)
    ensures
        answer == announced(bytes@),
{
    let expected: [u8; 8] = [0x62, 0x70, 0x6c, 0x69, 0x73, 0x74, 0x30, 0x30];
    if bytes.len() < 8 {
        return false;
    }
    let mut index: usize = 0;
    while index < 8
        invariant
            index <= 8,
            bytes@.len() >= 8,
            expected@ == magic(),
            forall|i: int| 0 <= i < index ==> bytes@[i] == expected@[i],
        decreases 8 - index,
    {
        if bytes[index] != expected[index] {
            assert(bytes@.subrange(0, 8)[index as int] != magic()[index as int]);
            return false;
        }
        index += 1;
    }
    assert(bytes@.subrange(0, 8) =~= magic());
    true
}

/// Reads the trailer and checks the offset table.
#[verifier::loop_isolation(false)]
fn read_trailer(bytes: &[u8], limits: &Limits) -> (result: Result<(Trailer, Vec<usize>), Error>)
    ensures
        super::heic::outcome(result, result->Ok_0.0) == trailer_read(bytes@, *limits),
        result matches Ok((trailer, offsets)) ==> {
            &&& offsets@.len() == trailer.object_count
            &&& forall|index: int|
                0 <= index < trailer.object_count ==> #[trigger] offsets@[index] == object_offset(
                    bytes@,
                    trailer,
                    index,
                )
        },
{
    let size: usize = bytes.len();
    if size < 40 || !is_binary_plist(bytes) {
        return Err(invalid("property is not a binary property list"));
    }
    let at: usize = size - 32;
    let offset_size: usize = bytes[at + 6] as usize;
    let reference_size: usize = bytes[at + 7] as usize;
    if offset_size < 1 || offset_size > 8 || reference_size < 1 || reference_size > 8 {
        return Err(invalid("invalid property list integer width"));
    }
    proof {
        crate::wire::lemma_be_fits(bytes@, at + 8);
        crate::wire::lemma_be_fits(bytes@, at + 16);
        crate::wire::lemma_be_fits(bytes@, at + 24);
    }
    let object_count: u64 = crate::wire::be_u64(bytes, at + 8);
    let root: u64 = crate::wire::be_u64(bytes, at + 16);
    let table_offset: u64 = crate::wire::be_u64(bytes, at + 24);
    if object_count == 0 || object_count > limits.max_plist_objects as u64 {
        return Err(Error::Limit("property list object count"));
    }
    if root >= object_count {
        return Err(invalid("invalid root object"));
    }
    assert(0 <= object_count * offset_size <= 0xffff_ffff_ffff_ffff * 8) by (nonlinear_arith)
        requires
            0 <= object_count <= 0xffff_ffff_ffff_ffff,
            1 <= offset_size <= 8,
    ;
    let table_bytes: u128 = object_count as u128 * offset_size as u128;
    if table_offset < 8 || table_offset as u128 + table_bytes != at as u128 {
        return Err(invalid("invalid offset table"));
    }
    let trailer = Trailer {
        offset_size,
        reference_size,
        object_count: object_count as usize,
        root: root as usize,
        table_offset: table_offset as usize,
    };
    let mut offsets: Vec<usize> = Vec::with_capacity(trailer.object_count);
    let mut index: usize = 0;
    let mut position: usize = trailer.table_offset;
    assert(0 * offset_size == 0) by (nonlinear_arith);
    while index < trailer.object_count
        invariant
            index <= trailer.object_count,
            position == trailer.table_offset + index * offset_size,
            offsets@.len() == index,
            offsets_valid(bytes@, trailer, index as int),
            forall|i: int|
                0 <= i < index ==> #[trigger] offsets@[i] == object_offset(bytes@, trailer, i),
        decreases trailer.object_count - index,
    {
        assert(index * offset_size + offset_size <= trailer.object_count * offset_size)
            by (nonlinear_arith)
            requires
                index + 1 <= trailer.object_count,
                offset_size >= 0,
        ;
        assert((index + 1) * offset_size == index * offset_size + offset_size)
            by (nonlinear_arith);
        proof {
            crate::wire::lemma_be_word(bytes@, position as int, offset_size as nat);
        }
        let offset: u64 = read_be(bytes, position, offset_size)?;
        assert(object_offset(bytes@, trailer, index as int) == offset);
        if offset < 8 || offset >= table_offset {
            return Err(invalid("invalid object offset"));
        }
        offsets.push(offset as usize);
        position += offset_size;
        index += 1;
    }
    Ok((trailer, offsets))
}

/// Reads the object at `offset`: the bytes its payload expands to, where its
/// references start, and how many there are.
fn read_contents(bytes: &[u8], trailer: &Trailer, offset: usize) -> (result: Result<
    (u128, usize, usize),
    Error,
>)
    requires
        8 <= offset < trailer.table_offset,
        trailer.table_offset + 32 <= bytes@.len(),
        1 <= trailer.reference_size <= 8,
    ensures
        super::heic::outcome(
            result,
            Contents {
                bytes: result->Ok_0.0 as int,
                start: result->Ok_0.1 as int,
                references: result->Ok_0.2 as int,
            },
        ) == contents(bytes@, *trailer, offset as int),
{
    let size: usize = bytes.len();
    let end: usize = trailer.table_offset;
    let marker: u8 = bytes[offset];
    let kind: u8 = marker / 16;
    let info: u8 = marker % 16;
    if kind == 0 {
        if info == 0 || info == 8 || info == 9 {
            Ok((0, 0, 0))
        } else {
            Err(invalid("unsupported property list primitive"))
        }
    } else if kind == 1 || kind == 2 {
        let length: usize = two_to(info);
        checked_range(offset + 1, length, end)?;
        Ok((0, 0, 0))
    } else if kind == 3 {
        if info != 3 {
            return Err(invalid("invalid date object"));
        }
        checked_range(offset + 1, 8, end)?;
        Ok((0, 0, 0))
    } else if kind == 4 || kind == 5 {
        let (length, start) = object_length(bytes, offset, info, end)?;
        checked_range(start, length, end)?;
        Ok((length as u128, 0, 0))
    } else if kind == 6 {
        let (length, start) = object_length(bytes, offset, info, end)?;
        let payload: usize = match length.checked_mul(2) {
            Some(payload) => payload,
            None => return Err(invalid("invalid data object")),
        };
        checked_range(start, payload, end)?;
        Ok((3 * length as u128, 0, 0))
    } else if kind == 8 {
        checked_range(offset + 1, info as usize + 1, end)?;
        Ok((0, 0, 0))
    } else if kind == 10 || kind == 12 || kind == 13 {
        let (length, start) = object_length(bytes, offset, info, end)?;
        let references: usize = if kind == 13 {
            match length.checked_mul(2) {
                Some(references) => references,
                None => return Err(invalid("invalid dictionary")),
            }
        } else {
            length
        };
        let payload: usize = match references.checked_mul(trailer.reference_size) {
            Some(payload) => payload,
            None => return Err(invalid("invalid reference list")),
        };
        checked_range(start, payload, end)?;
        Ok((16 * references as u128, start, references))
    } else {
        Err(invalid("unsupported property list object"))
    }
}

/// Pushes the references of an object.
#[verifier::loop_isolation(false)]
fn push_references(
    bytes: &[u8],
    trailer: &Trailer,
    start: usize,
    count: usize,
    depth: usize,
    stack: &mut Vec<Pending>,
) -> (result: Result<(), Error>)
    requires
        1 <= trailer.reference_size <= 8,
        start + count * trailer.reference_size <= bytes@.len(),
    ensures
        ({
            let object = Contents { bytes: 0, start: start as int, references: count as int };
            match result {
                Ok(()) => references_valid(bytes@, *trailer, object, count as int)
                    && final(stack)@ == pushed(
                    bytes@,
                    *trailer,
                    object,
                    count as int,
                    depth as int,
                    old(stack)@,
                ),
                Err(error) => !references_valid(bytes@, *trailer, object, count as int) && error@
                    == Fault::Metadata("invalid object reference"@),
            }
        }),
{
    let ghost object = Contents { bytes: 0, start: start as int, references: count as int };
    let ghost before = stack@;
    let size: usize = bytes.len();
    let width: usize = trailer.reference_size;
    let mut index: usize = 0;
    let mut position: usize = start;
    assert(0 * width == 0) by (nonlinear_arith);
    assert(stack@ =~= pushed(bytes@, *trailer, object, 0, depth as int, before));
    while index < count
        invariant
            index <= count,
            position == start + index * width,
            references_valid(bytes@, *trailer, object, index as int),
            stack@ == pushed(bytes@, *trailer, object, index as int, depth as int, before),
        decreases count - index,
    {
        assert(index * width + width <= count * width) by (nonlinear_arith)
            requires
                index + 1 <= count,
                width >= 0,
        ;
        assert((index + 1) * width == index * width + width) by (nonlinear_arith);
        proof {
            crate::wire::lemma_be_word(bytes@, position as int, width as nat);
        }
        let child: u64 = read_be(bytes, position, width)?;
        assert(reference_at(bytes@, *trailer, start as int, index as int) == child);
        if child >= trailer.object_count as u64 {
            return Err(invalid("invalid object reference"));
        }
        stack.push(Pending { reference: child as usize, depth });
        position += width;
        index += 1;
        assert(stack@ =~= pushed(bytes@, *trailer, object, index as int, depth as int, before));
    }
    Ok(())
}

/// Validates the object graph and its expansion.
#[verifier::spinoff_prover]
#[verifier::loop_isolation(false)]
pub fn preflight_binary_plist(bytes: &[u8], limits: &Limits) -> (result: Result<(), Error>)
    ensures
        match inspected(bytes@, *limits) {
            Ok(_) => result is Ok,
            Err(fault) => result matches Err(error) && error@ == fault,
        },
{
    let (trailer, offsets) = read_trailer(bytes, limits)?;
    let mut stack: Vec<Pending> = Vec::new();
    stack.push(Pending { reference: trailer.root, depth: 1 });
    assert(stack@ =~= seq![Pending { reference: trailer.root, depth: 1 }]);
    let mut objects: usize = 0;
    let mut memory: usize = 0;
    while stack.len() > 0
        invariant
            trailer_read(bytes@, *limits) == Ok::<Trailer, Fault>(trailer),
            objects <= limits.max_expanded_plist_objects,
            forall|i: int|
                0 <= i < stack@.len() ==> #[trigger] stack@[i].reference < trailer.object_count
                    && stack@[i].depth <= objects + 1,
            inspected(bytes@, *limits) == expanded(
                bytes@,
                trailer,
                *limits,
                stack@,
                objects as nat,
                memory as nat,
            ),
        decreases limits.max_expanded_plist_objects - objects,
    {
        let ghost before = stack@;
        let top = stack.pop().unwrap();
        assert(top == before.last() && stack@ =~= before.drop_last());
        if objects >= limits.max_expanded_plist_objects {
            return Err(Error::Limit("expanded property list object count"));
        }
        objects += 1;
        charge_expanded_bytes(&mut memory, 64, limits)?;
        if top.depth > limits.max_plist_depth {
            return Err(Error::Limit("property list nesting depth"));
        }
        let offset: usize = offsets[top.reference];
        assert(offset == object_offset(bytes@, trailer, top.reference as int));
        let (payload, start, references) = read_contents(bytes, &trailer, offset)?;
        let ghost object = Contents {
            bytes: payload as int,
            start: start as int,
            references: references as int,
        };
        assert(contents(bytes@, trailer, offset as int) == Ok::<Contents, Fault>(object));
        if payload > usize::MAX as u128 {
            return Err(Error::Limit("expanded property list memory"));
        }
        charge_expanded_bytes(&mut memory, payload as usize, limits)?;
        if references > 0 {
            if objects as u128 + stack.len() as u128 + references as u128
                > limits.max_expanded_plist_objects as u128 {
                return Err(Error::Limit("expanded property list object count"));
            }
            let ghost below = stack@;
            push_references(bytes, &trailer, start, references, top.depth + 1, &mut stack)?;
            assert(stack@ =~= pushed(
                bytes@,
                trailer,
                object,
                references as int,
                top.depth + 1,
                below,
            ));
        } else {
            assert(stack@ =~= pushed(bytes@, trailer, object, 0, top.depth + 1, stack@));
        }
    }
    Ok(())
}

proof fn lemma_expansion_is_bounded(
    bytes: Seq<u8>,
    trailer: Trailer,
    limits: Limits,
    stack: Seq<Pending>,
    objects: nat,
    memory: nat,
)
    requires
        objects <= limits.max_expanded_plist_objects,
        memory <= limits.max_expanded_plist_bytes,
    ensures
        expanded(bytes, trailer, limits, stack, objects, memory) matches Ok((count, total)) ==> {
            &&& objects <= count <= limits.max_expanded_plist_objects
            &&& memory <= total <= limits.max_expanded_plist_bytes
            &&& stack.len() > 0 ==> count > objects
        },
    decreases limits.max_expanded_plist_objects - objects,
{
    if stack.len() > 0 && objects + 1 <= limits.max_expanded_plist_objects {
        if let Ok(object) = contents(
            bytes,
            trailer,
            object_offset(bytes, trailer, stack.last().reference as int),
        ) {
            if memory + 64 + object.bytes <= limits.max_expanded_plist_bytes && memory + 64
                + object.bytes >= memory {
                lemma_expansion_is_bounded(
                    bytes,
                    trailer,
                    limits,
                    pushed(
                        bytes,
                        trailer,
                        object,
                        object.references,
                        stack.last().depth + 1,
                        stack.drop_last(),
                    ),
                    objects + 1,
                    (memory + 64 + object.bytes) as nat,
                );
            }
        }
    }
}

/// An accepted list expands to at least one object, and to no more objects and
/// bytes than the limits allow, however often its objects are shared.
pub proof fn law_accepted_lists_expand_within_limits(bytes: Seq<u8>, limits: Limits)
    ensures
        inspected(bytes, limits) matches Ok((count, total)) ==> {
            &&& 1 <= count <= limits.max_expanded_plist_objects
            &&& total <= limits.max_expanded_plist_bytes
        },
{
    if let Ok(trailer) = trailer_read(bytes, limits) {
        lemma_expansion_is_bounded(
            bytes,
            trailer,
            limits,
            seq![Pending { reference: trailer.root, depth: 1 }],
            0,
            0,
        );
    }
}

/// Whether one object refers to another.
pub open spec fn refers(bytes: Seq<u8>, trailer: Trailer, from: int, to: int) -> bool {
    contents(bytes, trailer, object_offset(bytes, trailer, from)) matches Ok(object) && exists|
        index: int,
    |
        0 <= index < object.references && #[trigger] reference_at(
            bytes,
            trailer,
            object.start,
            index,
        ) == to
}

/// Whether each object of a chain refers to the next.
pub open spec fn chained(bytes: Seq<u8>, trailer: Trailer, chain: Seq<int>) -> bool {
    forall|index: int|
        0 <= index < chain.len() - 1 ==> #[trigger] refers(
            bytes,
            trailer,
            chain[index],
            chain[index + 1],
        )
}

proof fn lemma_chains_are_bounded(
    bytes: Seq<u8>,
    trailer: Trailer,
    limits: Limits,
    stack: Seq<Pending>,
    objects: nat,
    memory: nat,
    at: int,
    chain: Seq<int>,
)
    requires
        expanded(bytes, trailer, limits, stack, objects, memory) is Ok,
        forall|index: int|
            0 <= index < stack.len() ==> (#[trigger] stack[index]).depth <= objects + 1,
        objects <= limits.max_expanded_plist_objects,
        0 <= at < stack.len(),
        chain.len() > 0,
        chain[0] == stack[at].reference,
        chained(bytes, trailer, chain),
    ensures
        chain.len() + stack[at].depth <= limits.max_plist_depth + 1,
    decreases limits.max_expanded_plist_objects - objects,
{
    let top = stack.last();
    let object = contents(
        bytes,
        trailer,
        object_offset(bytes, trailer, top.reference as int),
    )->Ok_0;
    let next = pushed(
        bytes,
        trailer,
        object,
        object.references,
        top.depth + 1,
        stack.drop_last(),
    );
    let total = (memory + 64 + object.bytes) as nat;
    assert(expanded(bytes, trailer, limits, next, objects + 1, total) is Ok);
    assert forall|index: int| 0 <= index < next.len() implies (#[trigger] next[index]).depth
        <= objects + 2 by {
        if index < stack.len() - 1 {
            assert(next[index] == stack[index]);
        }
    }
    if at < stack.len() - 1 {
        assert(next[at] == stack[at]);
        lemma_chains_are_bounded(
            bytes,
            trailer,
            limits,
            next,
            objects + 1,
            total,
            at,
            chain,
        );
    } else if chain.len() > 1 {
        assert(refers(bytes, trailer, chain[0], chain[0int + 1]));
        let index = choose|index: int|
            0 <= index < object.references && #[trigger] reference_at(
                bytes,
                trailer,
                object.start,
                index,
            ) == chain[1];
        let rest = chain.skip(1);
        let position = stack.len() - 1 + index;
        assert(next[position].reference == chain[1]);
        assert forall|index: int| 0 <= index < rest.len() - 1 implies #[trigger] refers(
            bytes,
            trailer,
            rest[index],
            rest[index + 1],
        ) by {
            assert(refers(bytes, trailer, chain[index + 1], chain[index + 1 + 1]));
        }
        lemma_chains_are_bounded(
            bytes,
            trailer,
            limits,
            next,
            objects + 1,
            total,
            position,
            rest,
        );
    }
}

/// In a list that is accepted no chain of references from its root is longer than
/// the ceiling on nesting.
pub proof fn law_accepted_lists_are_not_too_deep(bytes: Seq<u8>, limits: Limits, chain: Seq<int>)
    requires
        inspected(bytes, limits) is Ok,
        chain.len() > 0,
        chain[0] == trailer_read(bytes, limits)->Ok_0.root,
        chained(bytes, trailer_read(bytes, limits)->Ok_0, chain),
    ensures
        chain.len() <= limits.max_plist_depth,
{
    let trailer = trailer_read(bytes, limits)->Ok_0;
    lemma_chains_are_bounded(
        bytes,
        trailer,
        limits,
        seq![Pending { reference: trailer.root, depth: 1 }],
        0,
        0,
        0,
        chain,
    );
}

/// A chain that goes through the part from `early` to `late` again and again.
spec fn wound(chain: Seq<int>, early: int, late: int, times: nat) -> Seq<int>
    decreases times,
{
    if times == 0 {
        chain.take(late + 1)
    } else {
        wound(chain, early, late, (times - 1) as nat) + chain.subrange(early + 1, late + 1)
    }
}

proof fn lemma_wound(
    bytes: Seq<u8>,
    trailer: Trailer,
    chain: Seq<int>,
    early: int,
    late: int,
    times: nat,
)
    requires
        chained(bytes, trailer, chain),
        0 <= early < late < chain.len(),
        chain[early] == chain[late],
    ensures
        ({
            let longer = wound(chain, early, late, times);
            &&& longer.len() > times
            &&& longer[0] == chain[0]
            &&& longer.last() == chain[late]
            &&& chained(bytes, trailer, longer)
        }),
    decreases times,
{
    let longer = wound(chain, early, late, times);
    if times == 0 {
        assert forall|index: int| 0 <= index < longer.len() - 1 implies #[trigger] refers(
            bytes,
            trailer,
            longer[index],
            longer[index + 1],
        ) by {
            assert(refers(bytes, trailer, chain[index], chain[index + 1]));
        }
    } else {
        lemma_wound(bytes, trailer, chain, early, late, (times - 1) as nat);
        let shorter = wound(chain, early, late, (times - 1) as nat);
        assert forall|index: int| 0 <= index < longer.len() - 1 implies #[trigger] refers(
            bytes,
            trailer,
            longer[index],
            longer[index + 1],
        ) by {
            if index < shorter.len() - 1 {
                assert(refers(bytes, trailer, shorter[index], shorter[index + 1]));
            } else {
                let at = early + (index - (shorter.len() - 1));
                assert(longer[index] == chain[at]);
                assert(refers(bytes, trailer, chain[at], chain[at + 1]));
            }
        }
    }
}

/// In a list that is accepted no object that can be reached holds itself, however far
/// down.
pub proof fn law_accepted_lists_have_no_cycles(
    bytes: Seq<u8>,
    limits: Limits,
    chain: Seq<int>,
    early: int,
    late: int,
)
    requires
        inspected(bytes, limits) is Ok,
        chain.len() > 0,
        chain[0] == trailer_read(bytes, limits)->Ok_0.root,
        chained(bytes, trailer_read(bytes, limits)->Ok_0, chain),
        0 <= early < late < chain.len(),
    ensures
        chain[early] != chain[late],
{
    if chain[early] == chain[late] {
        let trailer = trailer_read(bytes, limits)->Ok_0;
        let times = limits.max_plist_depth as nat;
        lemma_wound(bytes, trailer, chain, early, late, times);
        law_accepted_lists_are_not_too_deep(bytes, limits, wound(chain, early, late, times));
    }
}

// ---------------------------------------------------------------------------
// What a binary list holds
// ---------------------------------------------------------------------------

/// A binary list begins with its magic, letter by letter.
pub proof fn law_binary_lists_begin_with_their_magic(bytes: Seq<u8>)
    ensures
        announced(bytes) <==> bytes.len() >= 8 && forall|index: int|
            0 <= index < 8 ==> (#[trigger] bytes[index]) as int == "bplist00"@[index] as int,
{
    reveal_strlit("bplist00");
    let magic = magic();
    if bytes.len() >= 8 {
        let start = bytes.subrange(0, 8);
        if announced(bytes) {
            assert forall|index: int| 0 <= index < 8 implies (#[trigger] bytes[index]) as int
                == "bplist00"@[index] as int by {
                assert(start[index] == magic[index]);
            }
        }
        if forall|index: int|
            0 <= index < 8 ==> (#[trigger] bytes[index]) as int == "bplist00"@[index] as int {
            assert forall|index: int| 0 <= index < 8 implies start[index] == magic[index] by {
                assert(bytes[index] as int == "bplist00"@[index] as int);
            }
            assert(start =~= magic);
        }
    }
}

/// A trailer is usable where its integers have a width, it names at least one object and
/// not too many, the root among them, and its table of offsets fills what lies between the
/// objects and itself, each offset leading to an object.
pub proof fn law_trailers_are_usable(bytes: Seq<u8>, limits: Limits, trailer: Trailer)
    requires
        bytes.len() <= usize::MAX,
    ensures
        trailer_read(bytes, limits) == Ok::<Trailer, Fault>(trailer) <==> {
            let at = bytes.len() - 32;
            &&& bytes.len() >= 40
            &&& announced(bytes)
            &&& trailer.offset_size == bytes[at + 6]
            &&& trailer.reference_size == bytes[at + 7]
            &&& trailer.object_count == crate::wire::be(bytes, at + 8, 8)
            &&& trailer.root == crate::wire::be(bytes, at + 16, 8)
            &&& trailer.table_offset == crate::wire::be(bytes, at + 24, 8)
            &&& 1 <= trailer.offset_size <= 8
            &&& 1 <= trailer.reference_size <= 8
            &&& 1 <= trailer.object_count <= limits.max_plist_objects
            &&& trailer.root < trailer.object_count
            &&& 8 <= trailer.table_offset
            &&& trailer.table_offset + trailer.object_count * trailer.offset_size == at
            &&& forall|index: int|
                0 <= index < trailer.object_count ==> 8 <= #[trigger] object_offset(
                    bytes,
                    trailer,
                    index,
                ) < trailer.table_offset
        },
{
    let at = bytes.len() - 32;
    if bytes.len() >= 40 {
        let count = crate::wire::be(bytes, at + 8, 8);
        let width = bytes[at + 6];
        assert(count * width >= 0) by (nonlinear_arith);
    }
}

/// Two to a power is that power.
pub proof fn law_widths_double(exponent: nat)
    ensures
        power(exponent) == vstd::arithmetic::power2::pow2(exponent),
    decreases exponent,
{
    vstd::arithmetic::power2::lemma_pow2(exponent);
    if exponent == 0 {
        vstd::arithmetic::power2::lemma2_to64();
    } else {
        law_widths_double((exponent - 1) as nat);
        vstd::arithmetic::power2::lemma_pow2_unfold(exponent);
    }
}

/// A count of less than fifteen stands in the marker; any other stands behind it as an
/// integer of one, two, four or eight bytes.
pub proof fn law_counts_stand_in_or_behind_their_marker(
    bytes: Seq<u8>,
    offset: int,
    info: int,
    end: int,
    count: int,
    start: int,
)
    requires
        0 <= info <= 15,
    ensures
        info < 15 ==> length_read(bytes, offset, info, end) == Ok::<(int, int), Fault>(
            (info, offset + 1),
        ),
        info == 15 ==> (length_read(bytes, offset, info, end) == Ok::<(int, int), Fault>(
            (count, start),
        ) <==> {
            let width = start - offset - 2;
            &&& offset + 2 <= end
            &&& start <= end
            &&& count <= usize::MAX
            &&& (bytes[offset + 1] == 0x10 && width == 1) || (bytes[offset + 1] == 0x11 && width
                == 2) || (bytes[offset + 1] == 0x12 && width == 4) || (bytes[offset + 1] == 0x13
                && width == 8)
            &&& count == crate::wire::be(bytes, offset + 2, width as nat)
        }),
{
    reveal_with_fuel(power, 4);
    let marker = bytes[offset + 1] as int;
    if marker / 16 == 1 && marker % 16 <= 3 {
        assert(marker == 0x10 || marker == 0x11 || marker == 0x12 || marker == 0x13);
    }
}

/// Values without parts cost nothing beyond themselves: null, false and true, integers and
/// reals of a power of two of bytes, dates of eight, and identifiers, each where it lies
/// before the table.
pub proof fn law_plain_values_cost_nothing(bytes: Seq<u8>, trailer: Trailer, offset: int)
    ensures
        ({
            let marker = bytes[offset] as int;
            let end = trailer.table_offset;
            let held = contents(bytes, trailer, offset);
            let free = held matches Ok(object) && object.bytes == 0 && object.references == 0;
            &&& marker == 0x00 || marker == 0x08 || marker == 0x09 ==> free
            &&& marker < 0x10 && marker != 0x00 && marker != 0x08 && marker != 0x09 ==> held is Err
            &&& 0x10 <= marker < 0x30 ==> (free <==> offset + 1 + power((marker % 16) as nat)
                <= end) && (held is Ok <==> free)
            &&& marker == 0x33 ==> (free <==> offset + 9 <= end) && (held is Ok <==> free)
            &&& 0x30 <= marker < 0x40 && marker != 0x33 ==> held is Err
            &&& 0x80 <= marker < 0x90 ==> (free <==> offset + 2 + marker % 16 <= end) && (held is Ok
                <==> free)
            &&& 0x70 <= marker < 0x80 || 0x90 <= marker < 0xa0 || 0xb0 <= marker < 0xc0 || 0xe0
                <= marker ==> held is Err
        }),
{
}

/// Data and texts cost what they expand to: data and ASCII a byte each, text of two bytes
/// a unit three for each unit. They have to lie before the table.
pub proof fn law_texts_cost_what_they_expand_to(bytes: Seq<u8>, trailer: Trailer, offset: int)
    requires
        0x40 <= bytes[offset] < 0x70,
    ensures
        ({
            let wide = bytes[offset] >= 0x60;
            let held = contents(bytes, trailer, offset);
            match length_read(
                bytes,
                offset,
                bytes[offset] as int % 16,
                trailer.table_offset as int,
            ) {
                Err(fault) => held == Err::<Contents, Fault>(fault),
                Ok((count, start)) => {
                    let size = if wide {
                        count + count
                    } else {
                        count
                    };
                    &&& size <= usize::MAX ==> (held is Ok <==> start + size
                        <= trailer.table_offset)
                    &&& size > usize::MAX ==> held is Err
                    &&& (held matches Ok(object) ==> object.references == 0 && object.bytes
                        == if wide {
                        count + count + count
                    } else {
                        count
                    })
                },
            }
        }),
{
}

/// Arrays and sets hold a reference for each element and dictionaries two, directly behind
/// their count, at sixteen bytes each. The references have to lie before the table.
pub proof fn law_collections_hold_their_references(bytes: Seq<u8>, trailer: Trailer, offset: int)
    requires
        0xa0 <= bytes[offset] < 0xb0 || 0xc0 <= bytes[offset] < 0xe0,
    ensures
        ({
            let keyed = bytes[offset] >= 0xd0;
            let held = contents(bytes, trailer, offset);
            match length_read(
                bytes,
                offset,
                bytes[offset] as int % 16,
                trailer.table_offset as int,
            ) {
                Err(fault) => held == Err::<Contents, Fault>(fault),
                Ok((count, start)) => {
                    let references = if keyed {
                        count + count
                    } else {
                        count
                    };
                    let size = references * trailer.reference_size;
                    &&& references <= usize::MAX && size <= usize::MAX ==> (held is Ok <==> start
                        + size <= trailer.table_offset)
                    &&& references > usize::MAX || size > usize::MAX ==> held is Err
                    &&& (held matches Ok(object) ==> {
                        &&& object.references == references
                        &&& object.start == start
                        &&& object.bytes == 16 * references
                    })
                },
            }
        }),
{
}

/// What is left to expand, and what was counted so far.
#[verifier::ext_equal]
pub struct Unfolding {
    pub stack: Seq<Pending>,
    pub objects: nat,
    pub memory: nat,
}

/// Whether expanding the object on top leads from one state to the next: it counts once
/// and costs 64 bytes and its contents, it does not lie too deep, all its references name
/// objects, and they take its place, one level deeper and in their order.
pub open spec fn unfolds(
    bytes: Seq<u8>,
    trailer: Trailer,
    limits: Limits,
    before: Unfolding,
    after: Unfolding,
) -> bool {
    let top = before.stack.last();
    let kept = before.stack.len() - 1;
    &&& before.stack.len() > 0
    &&& top.depth <= limits.max_plist_depth
    &&& contents(
        bytes,
        trailer,
        object_offset(bytes, trailer, top.reference as int),
    ) matches Ok(object) && {
        &&& after.objects == before.objects + 1
        &&& after.memory == before.memory + 64 + object.bytes
        &&& after.objects <= limits.max_expanded_plist_objects
        &&& after.memory <= limits.max_expanded_plist_bytes
        &&& before.memory + 64 <= limits.max_expanded_plist_bytes
        &&& object.references > 0 ==> after.objects + kept + object.references
            <= limits.max_expanded_plist_objects
        &&& after.stack == pushed(
            bytes,
            trailer,
            object,
            object.references,
            top.depth + 1,
            before.stack.drop_last(),
        )
        &&& forall|index: int|
            0 <= index < object.references ==> #[trigger] reference_at(
                bytes,
                trailer,
                object.start,
                index,
            ) < trailer.object_count
    }
}

/// Whether a list unfolds from state to state until nothing is left.
pub open spec fn unfolded(
    bytes: Seq<u8>,
    trailer: Trailer,
    limits: Limits,
    states: Seq<Unfolding>,
) -> bool {
    &&& states.len() >= 1
    &&& states.last().stack.len() == 0
    &&& forall|index: int|
        0 <= index < states.len() - 1 ==> #[trigger] unfolds(
            bytes,
            trailer,
            limits,
            states[index],
            states[index + 1],
        )
}

/// A list whose objects unfold until nothing is left is accepted with what was counted.
pub proof fn law_unfolded_lists_are_accepted(
    bytes: Seq<u8>,
    trailer: Trailer,
    limits: Limits,
    states: Seq<Unfolding>,
)
    requires
        trailer_read(bytes, limits) == Ok::<Trailer, Fault>(trailer),
        unfolded(bytes, trailer, limits, states),
        states[0] == (Unfolding {
            stack: seq![Pending { reference: trailer.root, depth: 1 }],
            objects: 0,
            memory: 0,
        }),
    ensures
        inspected(bytes, limits) == Ok::<(nat, nat), Fault>(
            (states.last().objects, states.last().memory),
        ),
{
    lemma_unfolded(bytes, trailer, limits, states, 0);
}

proof fn lemma_unfolded(
    bytes: Seq<u8>,
    trailer: Trailer,
    limits: Limits,
    states: Seq<Unfolding>,
    at: int,
)
    requires
        unfolded(bytes, trailer, limits, states),
        0 <= at < states.len(),
    ensures
        expanded(
            bytes,
            trailer,
            limits,
            states[at].stack,
            states[at].objects,
            states[at].memory,
        ) == Ok::<(nat, nat), Fault>((states.last().objects, states.last().memory)),
    decreases states.len() - at,
{
    if at < states.len() - 1 {
        assert(unfolds(bytes, trailer, limits, states[at], states[at + 1]));
        lemma_unfolded(bytes, trailer, limits, states, at + 1);
    }
}

/// Every list that is accepted unfolds in this way; the answer gives the states it passes.
pub proof fn law_accepted_lists_unfold(bytes: Seq<u8>, limits: Limits) -> (states: Seq<Unfolding>)
    requires
        inspected(bytes, limits) is Ok,
    ensures
        trailer_read(bytes, limits) matches Ok(trailer) && unfolded(
            bytes,
            trailer,
            limits,
            states,
        ) && states[0].stack == seq![Pending { reference: trailer.root, depth: 1 }]
            && states[0].objects == 0 && states[0].memory == 0,
        inspected(bytes, limits) == Ok::<(nat, nat), Fault>(
            (states.last().objects, states.last().memory),
        ),
{
    let trailer = trailer_read(bytes, limits)->Ok_0;
    let start = Unfolding {
        stack: seq![Pending { reference: trailer.root, depth: 1 }],
        objects: 0,
        memory: 0,
    };
    let states = lemma_unfoldings(bytes, trailer, limits, seq![start]);
    states
}

proof fn lemma_unfoldings(
    bytes: Seq<u8>,
    trailer: Trailer,
    limits: Limits,
    begun: Seq<Unfolding>,
) -> (states: Seq<Unfolding>)
    requires
        begun.len() >= 1,
        expanded(
            bytes,
            trailer,
            limits,
            begun.last().stack,
            begun.last().objects,
            begun.last().memory,
        ) is Ok,
        forall|index: int|
            0 <= index < begun.len() - 1 ==> #[trigger] unfolds(
                bytes,
                trailer,
                limits,
                begun[index],
                begun[index + 1],
            ),
    ensures
        unfolded(bytes, trailer, limits, states),
        states[0] == begun[0],
        expanded(
            bytes,
            trailer,
            limits,
            begun.last().stack,
            begun.last().objects,
            begun.last().memory,
        ) == Ok::<(nat, nat), Fault>((states.last().objects, states.last().memory)),
    decreases limits.max_expanded_plist_objects - begun.last().objects,
{
    let before = begun.last();
    if before.stack.len() == 0 {
        begun
    } else {
        let top = before.stack.last();
        let object = contents(
            bytes,
            trailer,
            object_offset(bytes, trailer, top.reference as int),
        )->Ok_0;
        let next = Unfolding {
            stack: pushed(
                bytes,
                trailer,
                object,
                object.references,
                top.depth + 1,
                before.stack.drop_last(),
            ),
            objects: before.objects + 1,
            memory: (before.memory + 64 + object.bytes) as nat,
        };
        assert(object.bytes >= 0) by {
            lemma_contents_cost(bytes, trailer, object_offset(bytes, trailer, top.reference as int));
        }
        assert(unfolds(bytes, trailer, limits, before, next));
        let more = begun.push(next);
        assert forall|index: int| 0 <= index < more.len() - 1 implies #[trigger] unfolds(
            bytes,
            trailer,
            limits,
            more[index],
            more[index + 1],
        ) by {
            if index < begun.len() - 1 {
                assert(unfolds(bytes, trailer, limits, begun[index], begun[index + 1]));
            }
        }
        let states = lemma_unfoldings(bytes, trailer, limits, more);
        states
    }
}

proof fn lemma_contents_cost(bytes: Seq<u8>, trailer: Trailer, offset: int)
    ensures
        contents(bytes, trailer, offset) matches Ok(object) ==> object.bytes >= 0
            && object.references >= 0,
{
}

/// The references of an object take its place on top, in their order and one level deeper,
/// and what lay below stays.
pub proof fn law_references_are_expanded_next(
    bytes: Seq<u8>,
    trailer: Trailer,
    object: Contents,
    depth: usize,
    stack: Seq<Pending>,
    index: int,
)
    requires
        0 <= object.references,
        0 <= index < stack.len() + object.references,
    ensures
        ({
            let after = pushed(bytes, trailer, object, object.references, depth as int, stack);
            &&& after.len() == stack.len() + object.references
            &&& index < stack.len() ==> after[index] == stack[index]
            &&& index >= stack.len() ==> after[index].depth == depth && (reference_at(
                bytes,
                trailer,
                object.start,
                index - stack.len(),
            ) <= usize::MAX ==> after[index].reference == reference_at(
                bytes,
                trailer,
                object.start,
                index - stack.len(),
            ))
        }),
{
    let at = index - stack.len();
    assert(reference_at(bytes, trailer, object.start, at) >= 0);
}

/// References and offsets stand one behind the other, each in as many bytes as the trailer
/// says.
pub proof fn law_references_stand_one_behind_the_other(
    bytes: Seq<u8>,
    trailer: Trailer,
    start: int,
    index: int,
)
    ensures
        reference_at(bytes, trailer, start, 0) == crate::wire::be(
            bytes,
            start,
            trailer.reference_size as nat,
        ),
        reference_at(bytes, trailer, start, index + 1) == reference_at(
            bytes,
            trailer,
            start + trailer.reference_size,
            index,
        ),
        object_offset(bytes, trailer, index) == crate::wire::be(
            bytes,
            trailer.table_offset + index * trailer.offset_size,
            trailer.offset_size as nat,
        ),
{
    assert((index + 1) * trailer.reference_size == index * trailer.reference_size
        + trailer.reference_size) by (nonlinear_arith);
    assert(0 * trailer.reference_size == 0) by (nonlinear_arith);
}

} // verus!
