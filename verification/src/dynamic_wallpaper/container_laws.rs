//! What the structural preflight accepts, told by where things lie in the file.

use vstd::prelude::*;

use super::container;
use super::container::{Budget, Extent, ItemEntry, Layout, Region, Tally};
use super::heic::Fault;
use crate::wire;

verus! {

// ---------------------------------------------------------------------------
// Boxes
// ---------------------------------------------------------------------------

/// Whether a box lies at `offset` of a parent that ends at `limit`: a size, a type, and a
/// body. A size of zero reaches to the end of the parent, a size of one is told by eight
/// bytes behind the type, and sixteen more bytes belong to the type of a `uuid` box.
pub open spec fn box_at(bytes: Seq<u8>, offset: int, limit: int, found: Region) -> bool {
    let size = wire::be(bytes, offset, 4);
    let told = if size == 1 {
        16int
    } else {
        8int
    };
    &&& offset + told <= limit
    &&& found.kind == wire::be(bytes, offset + 4, 4)
    &&& found.start == offset + told + if found.kind == 0x7575_6964 {
        16int
    } else {
        0int
    }
    &&& found.start <= found.end <= limit
    &&& found.end == if size == 0 {
        limit
    } else if size == 1 {
        offset + wire::be(bytes, offset + 8, 8)
    } else {
        offset + size
    }
}

/// A box is found where one lies, with the type and the body it has, and nowhere else.
pub proof fn law_boxes_are_found_where_they_lie(
    bytes: Seq<u8>,
    offset: int,
    limit: int,
    found: Region,
)
    requires
        0 <= offset,
        limit <= bytes.len() <= usize::MAX,
    ensures
        container::header_at(bytes, offset, limit) == Ok::<Region, Fault>(found) <==> box_at(
            bytes,
            offset,
            limit,
            found,
        ),
{
    wire::lemma_be_fits(bytes, offset + 4);
    if let Ok(region) = container::header_at(bytes, offset, limit) {
        if box_at(bytes, offset, limit, found) {
            assert(region.kind == found.kind);
            assert(region == found);
        }
    }
}

/// The sum of some counts.
pub open spec fn sum(counts: Seq<nat>) -> nat
    decreases counts.len(),
{
    if counts.len() == 0 {
        0
    } else {
        counts[0] + sum(counts.skip(1))
    }
}

// ---------------------------------------------------------------------------
// References
// ---------------------------------------------------------------------------

/// Whether a list of `count` references lies at `offset` and ends at `next`: a box that
/// holds an identifier, the count, and as many identifiers, and nothing else.
pub open spec fn reference_list(
    bytes: Seq<u8>,
    id_size: nat,
    offset: int,
    limit: int,
    count: nat,
    next: int,
) -> bool {
    exists|found: Region|
        {
            &&& #[trigger] box_at(bytes, offset, limit, found)
            &&& found.end == next
            &&& count >= 1
            &&& wire::be(bytes, found.start + id_size, 2) == count
            &&& found.start + id_size + 2 + count * id_size == next
        }
}

/// Whether lists of references lie one behind the other, from the first cut to the last.
pub open spec fn laid_references(
    bytes: Seq<u8>,
    id_size: nat,
    cuts: Seq<int>,
    counts: Seq<nat>,
    limit: int,
) -> bool {
    &&& cuts.len() == counts.len() + 1
    &&& cuts.last() == limit
    &&& forall|index: int|
        0 <= index < counts.len() ==> reference_list(
            bytes,
            id_size,
            cuts[index],
            limit,
            #[trigger] counts[index],
            cuts[index + 1],
        )
}

proof fn lemma_reference_list(
    bytes: Seq<u8>,
    budget: Budget,
    id_size: nat,
    offset: int,
    limit: int,
    total: nat,
    count: nat,
    next: int,
)
    requires
        0 <= offset < limit <= bytes.len() <= usize::MAX,
        id_size == 2 || id_size == 4,
    ensures
        reference_list(bytes, id_size, offset, limit, count, next) && total + count
            <= budget.max_container_items ==> offset < next <= limit && container::reference_lists(
            bytes,
            budget,
            id_size,
            offset,
            limit,
            total,
        ) == container::reference_lists(bytes, budget, id_size, next, limit, total + count),
{
    if reference_list(bytes, id_size, offset, limit, count, next) {
        let found = choose|found: Region|
            {
                &&& #[trigger] box_at(bytes, offset, limit, found)
                &&& found.end == next
                &&& count >= 1
                &&& wire::be(bytes, found.start + id_size, 2) == count
                &&& found.start + id_size + 2 + count * id_size == next
            };
        law_boxes_are_found_where_they_lie(bytes, offset, limit, found);
        assert(count * id_size >= 0) by (nonlinear_arith);
    }
}

/// Lists of references that lie one behind the other and fill their box are accepted, as
/// many as there are, and every one of their references is counted.
pub proof fn law_reference_lists_are_counted(
    bytes: Seq<u8>,
    budget: Budget,
    id_size: nat,
    cuts: Seq<int>,
    counts: Seq<nat>,
    limit: int,
    total: nat,
)
    requires
        id_size == 2 || id_size == 4,
        laid_references(bytes, id_size, cuts, counts, limit),
        0 <= cuts[0] <= limit <= bytes.len() <= usize::MAX,
        total + sum(counts) <= budget.max_container_items,
    ensures
        container::reference_lists(bytes, budget, id_size, cuts[0], limit, total) == Ok::<nat, Fault>(
            total + sum(counts),
        ),
    decreases counts.len(),
{
    if counts.len() > 0 {
        let rest = counts.skip(1);
        let later = cuts.skip(1);
        assert(reference_list(bytes, id_size, cuts[0], limit, counts[0], cuts[1]));
        assert(cuts[0] < limit) by {
            let found = choose|found: Region| #[trigger] box_at(bytes, cuts[0], limit, found);
        }
        lemma_reference_list(bytes, budget, id_size, cuts[0], limit, total, counts[0], cuts[1]);
        assert forall|index: int| 0 <= index < rest.len() implies reference_list(
            bytes,
            id_size,
            later[index],
            limit,
            #[trigger] rest[index],
            later[index + 1],
        ) by {
            assert(rest[index] == counts[index + 1]);
        }
        law_reference_lists_are_counted(
            bytes,
            budget,
            id_size,
            later,
            rest,
            limit,
            total + counts[0],
        );
    }
}

/// Lists of references that are accepted lie one behind the other and fill their box, and
/// what is counted are their references, within the ceiling.
pub proof fn law_counted_references_lie_in_lists(
    bytes: Seq<u8>,
    budget: Budget,
    id_size: nat,
    offset: int,
    limit: int,
    total: nat,
) -> (laid: (Seq<int>, Seq<nat>))
    requires
        id_size == 2 || id_size == 4,
        0 <= offset <= limit <= bytes.len() <= usize::MAX,
        container::reference_lists(bytes, budget, id_size, offset, limit, total) is Ok,
    ensures
        laid_references(bytes, id_size, laid.0, laid.1, limit),
        laid.0[0] == offset,
        container::reference_lists(bytes, budget, id_size, offset, limit, total) == Ok::<nat, Fault>(
            total + sum(laid.1),
        ),
        laid.1.len() > 0 ==> total + sum(laid.1) <= budget.max_container_items,
    decreases limit - offset,
{
    if offset >= limit {
        (seq![limit], Seq::empty())
    } else {
        let found = container::header_at(bytes, offset, limit)->Ok_0;
        law_boxes_are_found_where_they_lie(bytes, offset, limit, found);
        let count = wire::be(bytes, found.start + id_size, 2);
        assert(count * id_size >= 0) by (nonlinear_arith);
        assert(box_at(bytes, offset, limit, found));
        let (cuts, counts) = law_counted_references_lie_in_lists(
            bytes,
            budget,
            id_size,
            found.end,
            limit,
            total + count,
        );
        let all_cuts = seq![offset] + cuts;
        let all_counts = seq![count] + counts;
        assert(all_counts.skip(1) =~= counts);
        assert(reference_list(bytes, id_size, offset, limit, count, found.end));
        assert forall|index: int| 0 <= index < all_counts.len() implies reference_list(
            bytes,
            id_size,
            all_cuts[index],
            limit,
            #[trigger] all_counts[index],
            all_cuts[index + 1],
        ) by {
            if index > 0 {
                assert(all_counts[index] == counts[index - 1]);
                assert(all_cuts[index] == cuts[index - 1]);
                assert(all_cuts[index + 1] == cuts[index - 1 + 1]);
            }
        }
        (all_cuts, all_counts)
    }
}

/// An item reference box has short identifiers in its first version and long ones in its
/// second, and there is no third. Its lists lie behind version and flags, and nothing but
/// the number of references changes.
pub proof fn law_item_references_are_counted_alone(
    bytes: Seq<u8>,
    budget: Budget,
    tally: Tally,
    start: int,
    end: int,
)
    requires
        0 <= start <= end <= bytes.len() <= usize::MAX,
    ensures
        start + 4 <= end && bytes[start] == 0 ==> container::add_references(bytes, budget, tally, start, end)
            == match container::reference_lists(bytes, budget, 2, start + 4, end, tally.iref_references) {
            Ok(references) => Ok(Tally { iref_references: references, ..tally }),
            Err(fault) => Err(fault),
        },
        start + 4 <= end && bytes[start] == 1 ==> container::add_references(bytes, budget, tally, start, end)
            == match container::reference_lists(bytes, budget, 4, start + 4, end, tally.iref_references) {
            Ok(references) => Ok(Tally { iref_references: references, ..tally }),
            Err(fault) => Err(fault),
        },
        start + 4 > end || bytes[start] >= 2 ==> container::add_references(bytes, budget, tally, start, end)
            is Err,
{
}

// ---------------------------------------------------------------------------
// Track references
// ---------------------------------------------------------------------------

/// Whether a list of `count` track references lies at `offset` and ends at `next`: a box
/// that tells its size and holds that many identifiers of four bytes.
pub open spec fn track_list(bytes: Seq<u8>, offset: int, limit: int, count: nat, next: int) -> bool {
    exists|found: Region|
        {
            &&& #[trigger] box_at(bytes, offset, limit, found)
            &&& wire::be(bytes, offset, 4) != 0
            &&& count >= 1
            &&& found.end == next
            &&& found.start + 4 * count == next
        }
}

/// Whether lists of track references lie one behind the other.
pub open spec fn laid_tracks(bytes: Seq<u8>, cuts: Seq<int>, counts: Seq<nat>, limit: int) -> bool {
    &&& cuts.len() == counts.len() + 1
    &&& cuts.last() == limit
    &&& forall|index: int|
        0 <= index < counts.len() ==> track_list(
            bytes,
            cuts[index],
            limit,
            #[trigger] counts[index],
            cuts[index + 1],
        )
}

/// Lists of track references that lie one behind the other are accepted, and every one of
/// their references is counted.
pub proof fn law_track_references_are_counted(
    bytes: Seq<u8>,
    budget: Budget,
    cuts: Seq<int>,
    counts: Seq<nat>,
    limit: int,
    total: nat,
)
    requires
        laid_tracks(bytes, cuts, counts, limit),
        0 <= cuts[0] <= limit <= bytes.len() <= usize::MAX,
        total + sum(counts) <= budget.max_container_items,
    ensures
        container::track_lists(bytes, budget, cuts[0], limit, total) == Ok::<nat, Fault>(total + sum(counts)),
    decreases counts.len(),
{
    if counts.len() > 0 {
        let rest = counts.skip(1);
        let later = cuts.skip(1);
        let (offset, next, count) = (cuts[0], cuts[1], counts[0]);
        assert(track_list(bytes, offset, limit, count, next));
        let found = choose|found: Region|
            {
                &&& #[trigger] box_at(bytes, offset, limit, found)
                &&& wire::be(bytes, offset, 4) != 0
                &&& count >= 1
                &&& found.end == next
                &&& found.start + 4 * count == next
            };
        law_boxes_are_found_where_they_lie(bytes, offset, limit, found);
        assert forall|index: int| 0 <= index < rest.len() implies track_list(
            bytes,
            later[index],
            limit,
            #[trigger] rest[index],
            later[index + 1],
        ) by {
            assert(rest[index] == counts[index + 1]);
        }
        law_track_references_are_counted(bytes, budget, later, rest, limit, total + count);
    }
}

/// Lists of track references that are accepted lie one behind the other, and what is
/// counted are their references, within the ceiling.
pub proof fn law_counted_track_references_lie_in_lists(
    bytes: Seq<u8>,
    budget: Budget,
    offset: int,
    limit: int,
    total: nat,
) -> (laid: (Seq<int>, Seq<nat>))
    requires
        0 <= offset <= limit <= bytes.len() <= usize::MAX,
        container::track_lists(bytes, budget, offset, limit, total) is Ok,
    ensures
        laid_tracks(bytes, laid.0, laid.1, limit),
        laid.0[0] == offset,
        container::track_lists(bytes, budget, offset, limit, total) == Ok::<nat, Fault>(total + sum(laid.1)),
        laid.1.len() > 0 ==> total + sum(laid.1) <= budget.max_container_items,
    decreases limit - offset,
{
    if offset >= limit {
        (seq![limit], Seq::empty())
    } else {
        let found = container::header_at(bytes, offset, limit)->Ok_0;
        law_boxes_are_found_where_they_lie(bytes, offset, limit, found);
        let count = ((found.end - found.start) / 4) as nat;
        let (cuts, counts) = law_counted_track_references_lie_in_lists(
            bytes,
            budget,
            found.end,
            limit,
            total + count,
        );
        let all_cuts = seq![offset] + cuts;
        let all_counts = seq![count] + counts;
        assert(all_counts.skip(1) =~= counts);
        assert(box_at(bytes, offset, limit, found));
        assert(track_list(bytes, offset, limit, count, found.end));
        assert forall|index: int| 0 <= index < all_counts.len() implies track_list(
            bytes,
            all_cuts[index],
            limit,
            #[trigger] all_counts[index],
            all_cuts[index + 1],
        ) by {
            if index > 0 {
                assert(all_counts[index] == counts[index - 1]);
                assert(all_cuts[index] == cuts[index - 1]);
                assert(all_cuts[index + 1] == cuts[index - 1 + 1]);
            }
        }
        (all_cuts, all_counts)
    }
}

// ---------------------------------------------------------------------------
// Associations
// ---------------------------------------------------------------------------

/// Whether entries of property associations lie one behind the other: an identifier, one
/// byte that tells how many there are, and as many associations.
pub open spec fn laid_associations(
    bytes: Seq<u8>,
    id_width: nat,
    width: nat,
    cuts: Seq<int>,
    counts: Seq<nat>,
    end: int,
) -> bool {
    &&& cuts.len() == counts.len() + 1
    &&& counts.len() > 0 ==> cuts.last() <= end
    &&& forall|index: int|
        0 <= index < counts.len() ==> {
            &&& (#[trigger] counts[index]) == bytes[cuts[index] + id_width]
            &&& cuts[index + 1] == cuts[index] + id_width + 1 + counts[index] * width
        }
}

proof fn lemma_associations_rise(
    bytes: Seq<u8>,
    id_width: nat,
    width: nat,
    cuts: Seq<int>,
    counts: Seq<nat>,
    end: int,
    index: int,
)
    requires
        laid_associations(bytes, id_width, width, cuts, counts, end),
        0 <= index <= counts.len(),
        counts.len() > 0,
    ensures
        cuts[index] <= end,
    decreases counts.len() - index,
{
    if index < counts.len() {
        lemma_associations_rise(bytes, id_width, width, cuts, counts, end, index + 1);
        assert(cuts[index + 1] == cuts[index] + id_width + 1 + counts[index] * width);
        assert(counts[index] * width >= 0) by (nonlinear_arith);
    }
}

/// Entries of property associations that lie one behind the other are accepted, and every
/// one of their associations is counted.
pub proof fn law_associations_are_counted(
    bytes: Seq<u8>,
    budget: Budget,
    id_width: nat,
    width: nat,
    cuts: Seq<int>,
    counts: Seq<nat>,
    end: int,
    total: nat,
)
    requires
        laid_associations(bytes, id_width, width, cuts, counts, end),
        0 <= cuts[0],
        end <= bytes.len() <= usize::MAX,
        total + sum(counts) <= budget.max_container_associations,
    ensures
        container::association_entries(bytes, budget, id_width, width, cuts[0], end, counts.len(), total)
            == Ok::<nat, Fault>(total + sum(counts)),
    decreases counts.len(),
{
    if counts.len() > 0 {
        let rest = counts.skip(1);
        let later = cuts.skip(1);
        lemma_associations_rise(bytes, id_width, width, cuts, counts, end, 1);
        assert(counts[0] == bytes[cuts[0] + id_width]);
        assert(cuts[1] == cuts[0] + id_width + 1 + counts[0] * width);
        assert(counts[0] * width >= 0) by (nonlinear_arith);
        reveal_with_fuel(wire::be, 2);
        assert(wire::be(bytes, cuts[0] + id_width, 1) == counts[0]);
        assert forall|index: int| 0 <= index < rest.len() implies {
            &&& (#[trigger] rest[index]) == bytes[later[index] + id_width]
            &&& later[index + 1] == later[index] + id_width + 1 + rest[index] * width
        } by {
            assert(rest[index] == counts[index + 1]);
        }
        law_associations_are_counted(
            bytes,
            budget,
            id_width,
            width,
            later,
            rest,
            end,
            total + counts[0],
        );
    }
}

/// Entries of property associations that are accepted lie one behind the other inside
/// their box, and what is counted are their associations, within the ceiling.
pub proof fn law_counted_associations_lie_in_entries(
    bytes: Seq<u8>,
    budget: Budget,
    id_width: nat,
    width: nat,
    offset: int,
    end: int,
    count: nat,
    total: nat,
) -> (laid: (Seq<int>, Seq<nat>))
    requires
        0 <= offset,
        end <= bytes.len() <= usize::MAX,
        container::association_entries(bytes, budget, id_width, width, offset, end, count, total) is Ok,
    ensures
        laid.1.len() == count,
        laid_associations(bytes, id_width, width, laid.0, laid.1, end),
        laid.0[0] == offset,
        container::association_entries(bytes, budget, id_width, width, offset, end, count, total) == Ok::<
            nat,
            Fault,
        >(total + sum(laid.1)),
        count > 0 ==> total + sum(laid.1) <= budget.max_container_associations,
    decreases count,
{
    if count == 0 {
        (seq![offset], Seq::empty())
    } else {
        let first = wire::be(bytes, offset + id_width, 1);
        reveal_with_fuel(wire::be, 2);
        assert(first == bytes[offset + id_width]);
        let next = offset + id_width + 1 + first * width;
        assert(first * width >= 0) by (nonlinear_arith);
        let (cuts, counts) = law_counted_associations_lie_in_entries(
            bytes,
            budget,
            id_width,
            width,
            next,
            end,
            (count - 1) as nat,
            total + first,
        );
        let all_cuts = seq![offset] + cuts;
        let all_counts = seq![first] + counts;
        assert(all_counts.skip(1) =~= counts);
        assert forall|index: int| 0 <= index < all_counts.len() implies {
            &&& (#[trigger] all_counts[index]) == bytes[all_cuts[index] + id_width]
            &&& all_cuts[index + 1] == all_cuts[index] + id_width + 1 + all_counts[index] * width
        } by {
            if index > 0 {
                assert(all_counts[index] == counts[index - 1]);
                assert(all_cuts[index] == cuts[index - 1]);
                assert(all_cuts[index + 1] == cuts[index - 1 + 1]);
            } else {
                assert(all_cuts[1] == cuts[0]);
            }
        }
        assert(all_cuts.last() == cuts.last());
        (all_cuts, all_counts)
    }
}

/// A property association box has short identifiers in its first version and long ones in
/// its second, and there is no third; the lowest flag makes associations two bytes wide.
/// Its entries are as many as it declares, and are counted too.
pub proof fn law_association_boxes_are_counted_alone(
    bytes: Seq<u8>,
    budget: Budget,
    tally: Tally,
    start: int,
    end: int,
)
    requires
        0 <= start,
        end <= bytes.len() <= usize::MAX,
    ensures
        container::add_associations(bytes, budget, tally, start, end) matches Ok(after) ==> {
            let count = wire::be(bytes, start + 4, 4);
            let short = bytes[start] == 0;
            let wide = bytes[start + 3] % 2 == 1;
            &&& start + 8 <= end
            &&& bytes[start] <= 1
            &&& after.ipma_entries == tally.ipma_entries + count
            &&& after.ipma_entries <= budget.max_container_items
            &&& container::association_entries(
                bytes,
                budget,
                if short {
                    2
                } else {
                    4
                },
                if wide {
                    2
                } else {
                    1
                },
                start + 8,
                end,
                count,
                tally.ipma_associations,
            ) == Ok::<nat, Fault>(after.ipma_associations)
            &&& after == (Tally {
                ipma_entries: after.ipma_entries,
                ipma_associations: after.ipma_associations,
                ..tally
            })
        },
        start + 8 <= end && bytes[start] <= 1 && tally.ipma_entries + wire::be(bytes, start + 4, 4)
            <= budget.max_container_items && container::association_entries(
            bytes,
            budget,
            if bytes[start] == 0 {
                2
            } else {
                4
            },
            if bytes[start + 3] % 2 == 1 {
                2
            } else {
                1
            },
            start + 8,
            end,
            wire::be(bytes, start + 4, 4),
            tally.ipma_associations,
        ) is Ok ==> container::add_associations(bytes, budget, tally, start, end) is Ok,
{
    assert(wire::be(bytes, start, 1) == bytes[start]) by {
        reveal_with_fuel(wire::be, 2);
    }
    assert(wire::be(bytes, start + 3, 1) == bytes[start + 3]) by {
        reveal_with_fuel(wire::be, 2);
    }
}

// ---------------------------------------------------------------------------
// Locations
// ---------------------------------------------------------------------------

/// How many bytes one extent of a record takes.
pub open spec fn stride(layout: Layout) -> nat {
    (layout.index_size + layout.offset_size + layout.length_size) as nat
}

/// The summed lengths of `count` extents that lie one behind the other.
pub open spec fn length_sum(bytes: Seq<u8>, layout: Layout, first: int, count: nat) -> nat
    decreases count,
{
    if count == 0 {
        0
    } else {
        wire::be(
            bytes,
            first + layout.index_size + layout.offset_size,
            layout.length_size as nat,
        ) + length_sum(bytes, layout, first + stride(layout), (count - 1) as nat)
    }
}

proof fn lemma_extent_run(
    bytes: Seq<u8>,
    layout: Layout,
    offset: int,
    end: int,
    count: nat,
    total: nat,
)
    requires
        0 <= offset,
        end <= bytes.len() <= usize::MAX,
        total <= u64::MAX,
    ensures
        ({
            let next = offset + count * stride(layout);
            let lengths = total + length_sum(bytes, layout, offset, count);
            &&& container::extent_run(bytes, layout, offset, end, count, total) is Ok <==> (count > 0 ==> next
                <= end) && lengths <= u64::MAX
            &&& container::extent_run(bytes, layout, offset, end, count, total) matches Ok((sum, stop)) ==> sum
                == lengths && stop == next
        }),
    decreases count,
{
    let step = stride(layout) as int;
    if count > 0 {
        let value = wire::be(
            bytes,
            offset + layout.index_size + layout.offset_size,
            layout.length_size as nat,
        );
        assert(count * step == (count - 1) * step + step) by (nonlinear_arith);
        assert((count - 1) * step >= 0) by (nonlinear_arith)
            requires
                count >= 1,
                step >= 0,
        ;
        if total + value <= u64::MAX {
            lemma_extent_run(
                bytes,
                layout,
                offset + step,
                end,
                (count - 1) as nat,
                total + value,
            );
        }
    } else {
        assert(0 * step == 0) by (nonlinear_arith);
    }
}

/// Where the extents of a record start: behind its identifier, a construction method in
/// later versions, a data reference, the base offset, and the count.
pub open spec fn extents_at(layout: Layout, offset: int) -> int {
    offset + (if layout.version == 2 {
        4int
    } else {
        2int
    }) + (if layout.version == 0 {
        0int
    } else {
        2int
    }) + 2 + layout.base_offset_size + 2
}

/// A location record is told by its fields: the identifier in front, the number of extents
/// right before them, and the sum of their lengths, one behind the other. It is refused
/// where it reaches past its box or has more extents than the ceiling.
pub proof fn law_location_records_are_summed(
    bytes: Seq<u8>,
    budget: Budget,
    layout: Layout,
    offset: int,
    end: int,
)
    requires
        layout.version <= 2,
        0 <= offset,
        end <= bytes.len() <= usize::MAX,
    ensures
        ({
            let first = extents_at(layout, offset);
            let count = wire::be(bytes, first - 2, 2);
            let lengths = length_sum(bytes, layout, first, count);
            let next = first + count * stride(layout);
            &&& container::location_at(bytes, budget, layout, offset, end) is Ok <==> first <= end && next
                <= end && count <= budget.max_item_extents && lengths <= u64::MAX
            &&& container::location_at(bytes, budget, layout, offset, end) matches Ok((extent, stop)) ==> {
                &&& extent.id == wire::be(
                    bytes,
                    offset,
                    if layout.version == 2 {
                        4
                    } else {
                        2
                    },
                )
                &&& extent.bytes == lengths
                &&& stop == next
            }
        }),
{
    let first = extents_at(layout, offset);
    let count = wire::be(bytes, first - 2, 2);
    lemma_extent_run(bytes, layout, first, end, count, 0);
    wire::lemma_be_fits(bytes, offset);
    assert(count == 0 ==> count * stride(layout) == 0) by (nonlinear_arith);
    assert(count * stride(layout) >= 0) by (nonlinear_arith);
}

/// Whether records lie one behind the other, and what they declare.
pub open spec fn laid_records(
    bytes: Seq<u8>,
    budget: Budget,
    layout: Layout,
    cuts: Seq<int>,
    records: Seq<Extent>,
    end: int,
) -> bool {
    &&& cuts.len() == records.len() + 1
    &&& forall|index: int|
        0 <= index < records.len() ==> container::location_at(bytes, budget, layout, cuts[index], end) == Ok::<
            (Extent, int),
            Fault,
        >((#[trigger] records[index], cuts[index + 1]))
}

/// Records that lie one behind the other are taken in their order, after those before.
pub proof fn law_location_records_are_taken_in_order(
    bytes: Seq<u8>,
    budget: Budget,
    layout: Layout,
    cuts: Seq<int>,
    records: Seq<Extent>,
    end: int,
    before: Seq<Extent>,
)
    requires
        laid_records(bytes, budget, layout, cuts, records, end),
    ensures
        container::locations(bytes, budget, layout, cuts[0], end, records.len(), before) == Ok::<
            Seq<Extent>,
            Fault,
        >(before + records),
    decreases records.len(),
{
    if records.len() > 0 {
        let rest = records.skip(1);
        let later = cuts.skip(1);
        assert(container::location_at(bytes, budget, layout, cuts[0], end) == Ok::<(Extent, int), Fault>(
            (records[0], cuts[1]),
        ));
        assert forall|index: int| 0 <= index < rest.len() implies container::location_at(
            bytes,
            budget,
            layout,
            later[index],
            end,
        ) == Ok::<(Extent, int), Fault>((#[trigger] rest[index], later[index + 1])) by {
            assert(rest[index] == records[index + 1]);
        }
        law_location_records_are_taken_in_order(
            bytes,
            budget,
            layout,
            later,
            rest,
            end,
            before.push(records[0]),
        );
        assert(before.push(records[0]) + rest =~= before + records);
    } else {
        assert(before + records =~= before);
    }
}

/// Records that are accepted lie one behind the other.
pub proof fn law_accepted_records_lie_one_behind_the_other(
    bytes: Seq<u8>,
    budget: Budget,
    layout: Layout,
    offset: int,
    end: int,
    count: nat,
    before: Seq<Extent>,
) -> (laid: (Seq<int>, Seq<Extent>))
    requires
        container::locations(bytes, budget, layout, offset, end, count, before) is Ok,
    ensures
        laid.1.len() == count,
        laid.0[0] == offset,
        laid_records(bytes, budget, layout, laid.0, laid.1, end),
        container::locations(bytes, budget, layout, offset, end, count, before) == Ok::<Seq<Extent>, Fault>(
            before + laid.1,
        ),
    decreases count,
{
    if count == 0 {
        assert(before + Seq::<Extent>::empty() =~= before);
        (seq![offset], Seq::empty())
    } else {
        let (record, next) = container::location_at(bytes, budget, layout, offset, end)->Ok_0;
        let (cuts, records) = law_accepted_records_lie_one_behind_the_other(
            bytes,
            budget,
            layout,
            next,
            end,
            (count - 1) as nat,
            before.push(record),
        );
        let all_cuts = seq![offset] + cuts;
        let all = seq![record] + records;
        assert(before.push(record) + records =~= before + all);
        assert forall|index: int| 0 <= index < all.len() implies container::location_at(
            bytes,
            budget,
            layout,
            all_cuts[index],
            end,
        ) == Ok::<(Extent, int), Fault>((#[trigger] all[index], all_cuts[index + 1])) by {
            if index > 0 {
                assert(all[index] == records[index - 1]);
                assert(all_cuts[index] == cuts[index - 1]);
                assert(all_cuts[index + 1] == cuts[index - 1 + 1]);
            }
        }
        (all_cuts, all)
    }
}

/// Whether a field may be so many bytes wide.
pub open spec fn width_followed(width: int) -> bool {
    width == 0 || width == 4 || width == 8
}

/// A location box tells the widths of its fields four bits each, counts its records in two
/// bytes or, in its third version, in four, and is followed only where every width is none,
/// four, or eight bytes. All its records count, and nothing else does.
#[verifier::spinoff_prover]
#[verifier::rlimit(40)]
pub proof fn law_location_boxes_are_followed(
    bytes: Seq<u8>,
    budget: Budget,
    tally: Tally,
    start: int,
    end: int,
)
    requires
        0 <= start,
        end <= bytes.len() <= usize::MAX,
    ensures
        ({
            let version = bytes[start];
            let indexed = if version == 0 {
                0int
            } else {
                bytes[start + 5] as int % 16
            };
            let layout = Layout {
                version,
                offset_size: (bytes[start + 4] / 16) as usize,
                length_size: (bytes[start + 4] % 16) as usize,
                base_offset_size: (bytes[start + 5] / 16) as usize,
                index_size: indexed as usize,
            };
            let wide: nat = if version == 2 {
                4
            } else {
                2
            };
            let count = wire::be(bytes, start + 6, wide);
            let records = container::locations(
                bytes,
                budget,
                layout,
                start + 6 + wide,
                end,
                count,
                tally.extents,
            );
            &&& container::add_locations(bytes, budget, tally, start, end) is Ok <==> start + 6 + wide <= end
                && version <= 2 && width_followed(layout.offset_size as int) && width_followed(
                layout.length_size as int,
            ) && width_followed(layout.base_offset_size as int) && width_followed(indexed)
                && tally.iloc_records + count <= budget.max_container_items && records is Ok
            &&& container::add_locations(bytes, budget, tally, start, end) matches Ok(after) ==> after == (
            Tally {
                iloc_records: tally.iloc_records + count,
                extents: records->Ok_0,
                ..tally
            })
        }),
{
    assert(wire::be(bytes, start, 1) == bytes[start]) by {
        reveal_with_fuel(wire::be, 2);
    }
    assert(wire::be(bytes, start + 4, 2) == bytes[start + 4] * 256 + bytes[start + 5]) by {
        reveal_with_fuel(wire::be, 3);
    }
    lemma_packed_widths(bytes[start + 4], bytes[start + 5]);
    let widths = wire::be(bytes, start + 4, 2) as u16;
    let layout = container::layout_of(bytes[start], widths);
    assert(layout.offset_size == bytes[start + 4] / 16);
    assert(layout.length_size == bytes[start + 4] % 16);
    assert(layout.base_offset_size == bytes[start + 5] / 16);
    assert(bytes[start] >= 1 ==> layout.index_size == bytes[start + 5] % 16);
}

proof fn lemma_packed_widths(first: u8, second: u8)
    ensures
        ({
            let widths = (first * 256 + second) as u16;
            &&& widths == first * 256 + second
            &&& widths / 4096 == first / 16
            &&& widths / 256 % 16 == first % 16
            &&& widths / 16 % 16 == second / 16
            &&& widths % 16 == second % 16
        }),
{
    let (high, low) = (first as int / 16, first as int % 16);
    let (upper, lower) = (second as int / 16, second as int % 16);
    let widths = first * 256 + second;
    assert(widths == 4096 * high + 256 * low + 16 * upper + lower);
    assert(widths / 4096 == high);
    assert(widths / 256 == 16 * high + low);
    assert(widths / 16 == 256 * high + 16 * low + upper);
}

// ---------------------------------------------------------------------------
// Items
// ---------------------------------------------------------------------------

/// A string ends before its first zero byte and is left behind with it. Where none comes,
/// the string reaches to the end of the box but for its last byte.
pub proof fn law_strings_end_at_the_first_zero(
    bytes: Seq<u8>,
    offset: int,
    zero: int,
    end: int,
)
    requires
        0 <= offset <= zero <= end <= bytes.len(),
        zero < end ==> bytes[zero] == 0,
        forall|index: int| offset <= index < zero ==> #[trigger] bytes[index] != 0,
    ensures
        zero < end ==> container::text_at(bytes, offset, end) == bytes.subrange(offset, zero),
        zero < end ==> container::text_end(bytes, offset, end) == zero + 1,
        zero == end ==> container::text_end(bytes, offset, end) == end,
        zero == end && offset < end ==> container::text_at(bytes, offset, end) == bytes.subrange(
            offset,
            end - 1,
        ),
        offset == end ==> container::text_at(bytes, offset, end) == Seq::<u8>::empty(),
{
    lemma_terminator(bytes, offset, zero, end);
    if offset == end {
        assert(container::text_at(bytes, offset, end) =~= Seq::<u8>::empty());
    }
}

proof fn lemma_terminator(bytes: Seq<u8>, offset: int, zero: int, end: int)
    requires
        0 <= offset <= zero <= end <= bytes.len(),
        zero < end ==> bytes[zero] == 0,
        forall|index: int| offset <= index < zero ==> #[trigger] bytes[index] != 0,
    ensures
        container::terminator(bytes, offset, end) == zero,
    decreases zero - offset,
{
    if offset < zero {
        assert(bytes[offset] != 0);
        lemma_terminator(bytes, offset + 1, zero, end);
    }
}

/// An item entry is told by its fields: a version up to three, an identifier that is long
/// in the last of them, and from the third version on a type. Its content type is the
/// string behind its name, where the type is `mime` or there is none yet.
pub proof fn law_item_entries_are_told_by_their_fields(bytes: Seq<u8>, start: int, end: int)
    requires
        0 <= start,
        end <= bytes.len() <= usize::MAX,
    ensures
        ({
            let version = bytes[start];
            let name = if version <= 1 {
                start + 8
            } else if version == 2 {
                start + 12
            } else {
                start + 14
            };
            &&& container::item_entry(bytes, start, end) is Ok <==> start + 1 <= end && version <= 3 && name
                <= end
            &&& container::item_entry(bytes, start, end) matches Ok(entry) ==> {
                &&& entry.id == wire::be(
                    bytes,
                    start + 4,
                    if version == 3 {
                        4
                    } else {
                        2
                    },
                )
                &&& entry.item_type == if version <= 1 {
                    0
                } else {
                    wire::be(bytes, name - 4, 4)
                }
                &&& entry.content_type == if version <= 1 || entry.item_type == 0x6d69_6d65 {
                    container::text_at(bytes, container::text_end(bytes, name, end), end)
                } else {
                    Seq::empty()
                }
            }
        }),
{
    assert(wire::be(bytes, start, 1) == bytes[start]) by {
        reveal_with_fuel(wire::be, 2);
    }
    wire::lemma_be_fits(bytes, start + 4);
    wire::lemma_be_fits(bytes, start + 8);
    wire::lemma_be_fits(bytes, start + 10);
}

/// Every item counts. One that is no image, or is of type `mime` whatever it holds, is
/// remembered by its identifier, once; images are those of the types that pictures and
/// what is derived from them have.
pub proof fn law_items_that_are_no_pictures_are_remembered_once(
    budget: Budget,
    tally: Tally,
    entry: ItemEntry,
)
    ensures
        ({
            let kind = entry.item_type;
            let picture = kind == 0x6876_6331 || kind == 0x6176_3031 || kind == 0x6772_6964 || kind
                == 0x7469_6c69 || kind == 0x6964_656e || kind == 0x696f_766c || kind == 0x6176_6331
                || kind == 0x756e_6369 || kind == 0x7676_6331 || kind == 0x6a70_6567 || kind
                == 0x6a32_6b31 || kind == 0x6d73_6b69;
            let fresh = !picture && !tally.metadata_items.contains(entry.id);
            &&& container::add_item(budget, tally, entry) is Ok <==> tally.items < budget.max_container_items
                && (fresh ==> tally.metadata_items.len() < budget.max_metadata_items)
            &&& container::add_item(budget, tally, entry) matches Ok(after) ==> after == (Tally {
                items: tally.items + 1,
                metadata_items: if fresh {
                    tally.metadata_items.push(entry.id)
                } else {
                    tally.metadata_items
                },
                ..tally
            })
        }),
{
}

/// What an item may load is the most that any of its records declares, and the whole is
/// the sum over the items.
pub proof fn law_an_item_loads_its_largest_extent(
    items: Seq<u32>,
    id: u32,
    extents: Seq<Extent>,
    index: int,
)
    ensures
        0 <= index < extents.len() && extents[index].id == id ==> extents[index].bytes
            <= container::largest_extent(extents, id),
        container::largest_extent(extents, id) > 0 ==> exists|at: int|
            0 <= at < extents.len() && (#[trigger] extents[at]).id == id && extents[at].bytes
                == container::largest_extent(extents, id),
        container::metadata_bytes(items.push(id), extents) == container::metadata_bytes(items, extents) + container::largest_extent(
            extents,
            id,
        ),
        container::metadata_bytes(Seq::empty(), extents) == 0,
    decreases extents.len(),
{
    assert(items.push(id).drop_last() =~= items);
    if extents.len() > 0 {
        let shorter = extents.drop_last();
        law_an_item_loads_its_largest_extent(items, id, shorter, index);
        if 0 <= index < shorter.len() {
            assert(shorter[index] == extents[index]);
        }
        if container::largest_extent(shorter, id) > 0 {
            let at = choose|at: int|
                0 <= at < shorter.len() && (#[trigger] shorter[at]).id == id && shorter[at].bytes
                    == container::largest_extent(shorter, id);
            assert(extents[at].id == id);
        }
        if container::largest_extent(extents, id) > 0 && container::largest_extent(extents, id) != container::largest_extent(
            shorter,
            id,
        ) {
            assert(extents[extents.len() - 1].id == id);
        }
    }
}

// ---------------------------------------------------------------------------
// The walk
// ---------------------------------------------------------------------------

/// A file type box announces a sequence where one of its brands, the first one or one of
/// those behind its version, is one of the four brands of sequences.
pub proof fn law_sequences_are_announced_by_a_brand(bytes: Seq<u8>, start: int, end: int, index: int)
    requires
        0 <= start,
        start + 8 <= end <= bytes.len(),
        0 <= index,
    ensures
        ({
            let major = wire::be(bytes, start, 4);
            major == 0x6d73_6631 || major == 0x6973_6f6d || major == 0x6d70_3431 || major
                == 0x6d70_3432
        }) ==> container::announces_sequence(bytes, start, end),
        start + 8 + 4 * (index + 1) <= end && ({
            let brand = wire::be(bytes, start + 8 + 4 * index, 4);
            brand == 0x6d73_6631 || brand == 0x6973_6f6d || brand == 0x6d70_3431 || brand
                == 0x6d70_3432
        }) ==> container::announces_sequence(bytes, start, end),
        container::announces_sequence(bytes, start, end) ==> exists|at: int|
            {
                let brand = #[trigger] brand_at(bytes, start, at);
                &&& -2 <= at && at != -1
                &&& start + 8 + 4 * (at + 1) <= end
                &&& brand == 0x6d73_6631 || brand == 0x6973_6f6d || brand == 0x6d70_3431 || brand
                    == 0x6d70_3432
            },
{
    wire::lemma_be_fits(bytes, start);
    wire::lemma_be_fits(bytes, start + 8 + 4 * index);
    let _ = container::compatible_brand(bytes, start, index);
    if container::announces_sequence(bytes, start, end) {
        if container::sequence_brand_kind(wire::be(bytes, start, 4) as u32) {
            assert(brand_at(bytes, start, -2) == wire::be(bytes, start, 4));
        } else {
            let at = choose|at: int|
                0 <= at && start + 12 + 4 * at <= end && container::sequence_brand_kind(
                    #[trigger] container::compatible_brand(bytes, start, at),
                );
            wire::lemma_be_fits(bytes, start + 8 + 4 * at);
            assert(brand_at(bytes, start, at) == container::compatible_brand(bytes, start, at));
        }
    }
}

/// The brand at a place of a file type box, counted from behind its version.
pub open spec fn brand_at(bytes: Seq<u8>, start: int, at: int) -> nat {
    wire::be(bytes, start + 8 + 4 * at, 4)
}

/// Whether boxes lie one behind the other from the first cut to the last, and counting
/// each leads from one tally to the next.
pub open spec fn laid_boxes(
    bytes: Seq<u8>,
    budget: Budget,
    cuts: Seq<int>,
    tallies: Seq<Tally>,
    limit: int,
    depth: nat,
) -> bool {
    &&& cuts.len() == tallies.len()
    &&& cuts.len() > 0
    &&& forall|index: int|
        0 <= index < cuts.len() - 1 ==> counts_one(
            bytes,
            budget,
            cuts[index],
            cuts[index + 1],
            #[trigger] tallies[index],
            tallies[index + 1],
            limit,
            depth,
        )
}

/// Whether the box at `offset` ends at `next`, and counting it leads from one tally to
/// another.
pub open spec fn counts_one(
    bytes: Seq<u8>,
    budget: Budget,
    offset: int,
    next: int,
    before: Tally,
    after: Tally,
    limit: int,
    depth: nat,
) -> bool {
    exists|found: Region|
        {
            &&& #[trigger] box_at(bytes, offset, limit, found)
            &&& found.end == next
            &&& container::visited(bytes, budget, before, found, depth) == Ok::<Tally, Fault>(after)
        }
}

/// Boxes that lie one behind the other up to the end of their parent, and can be counted
/// one by one, are all counted.
pub proof fn law_every_box_is_walked(
    bytes: Seq<u8>,
    budget: Budget,
    cuts: Seq<int>,
    tallies: Seq<Tally>,
    limit: int,
    depth: nat,
)
    requires
        laid_boxes(bytes, budget, cuts, tallies, limit, depth),
        cuts.last() == limit,
        0 <= cuts[0] <= limit <= bytes.len() <= usize::MAX,
    ensures
        container::walked(bytes, budget, tallies[0], cuts[0], limit, depth) == Ok::<(Tally, nat), Fault>(
            (tallies.last(), (cuts.len() - 1) as nat),
        ),
    decreases cuts.len(),
{
    if cuts.len() > 1 {
        let later = cuts.skip(1);
        let rest = tallies.skip(1);
        assert(counts_one(
            bytes,
            budget,
            cuts[0],
            cuts[1],
            tallies[0],
            tallies[1],
            limit,
            depth,
        ));
        let found = choose|found: Region|
            {
                &&& #[trigger] box_at(bytes, cuts[0], limit, found)
                &&& found.end == cuts[1]
                &&& container::visited(bytes, budget, tallies[0], found, depth) == Ok::<Tally, Fault>(
                    tallies[1],
                )
            };
        law_boxes_are_found_where_they_lie(bytes, cuts[0], limit, found);
        assert forall|index: int| 0 <= index < later.len() - 1 implies counts_one(
            bytes,
            budget,
            later[index],
            later[index + 1],
            #[trigger] rest[index],
            rest[index + 1],
            limit,
            depth,
        ) by {
            assert(rest[index] == tallies[index + 1]);
        }
        law_every_box_is_walked(bytes, budget, later, rest, limit, depth);
    }
}

/// A walk that goes through has come by boxes that lie one behind the other up to the end
/// of their parent, and counted each.
pub proof fn law_walked_boxes_fill_their_parent(
    bytes: Seq<u8>,
    budget: Budget,
    tally: Tally,
    offset: int,
    limit: int,
    depth: nat,
) -> (laid: (Seq<int>, Seq<Tally>))
    requires
        0 <= offset <= limit <= bytes.len() <= usize::MAX,
        container::walked(bytes, budget, tally, offset, limit, depth) is Ok,
    ensures
        laid_boxes(bytes, budget, laid.0, laid.1, limit, depth),
        laid.0[0] == offset,
        laid.0.last() == limit,
        laid.1[0] == tally,
        container::walked(bytes, budget, tally, offset, limit, depth) == Ok::<(Tally, nat), Fault>(
            (laid.1.last(), (laid.0.len() - 1) as nat),
        ),
    decreases limit - offset,
{
    if offset >= limit {
        (seq![offset], seq![tally])
    } else {
        let found = container::header_at(bytes, offset, limit)->Ok_0;
        law_boxes_are_found_where_they_lie(bytes, offset, limit, found);
        let inner = container::visited(bytes, budget, tally, found, depth)->Ok_0;
        let (cuts, tallies) = law_walked_boxes_fill_their_parent(
            bytes,
            budget,
            inner,
            found.end,
            limit,
            depth,
        );
        let all_cuts = seq![offset] + cuts;
        let all = seq![tally] + tallies;
        assert(box_at(bytes, offset, limit, found));
        assert(counts_one(bytes, budget, offset, found.end, tally, inner, limit, depth));
        assert forall|index: int| 0 <= index < all_cuts.len() - 1 implies counts_one(
            bytes,
            budget,
            all_cuts[index],
            all_cuts[index + 1],
            #[trigger] all[index],
            all[index + 1],
            limit,
            depth,
        ) by {
            if index > 0 {
                assert(all[index] == tallies[index - 1]);
                assert(all[index + 1] == tallies[index - 1 + 1]);
                assert(all_cuts[index] == cuts[index - 1]);
                assert(all_cuts[index + 1] == cuts[index - 1 + 1]);
            }
        }
        assert(all_cuts.last() == cuts.last());
        assert(all.last() == tallies.last());
        (all_cuts, all)
    }
}

/// A box within the ceilings on boxes and depth is counted whatever it holds, unless the
/// walk knows its type; then only what its type speaks of is counted besides.
pub proof fn law_other_boxes_are_left_alone(
    bytes: Seq<u8>,
    budget: Budget,
    tally: Tally,
    found: Region,
    depth: nat,
)
    ensures
        ({
            let kind = found.kind;
            let after = container::visited(bytes, budget, tally, found, depth);
            let within = depth <= budget.max_container_depth && tally.boxes
                < budget.max_container_boxes;
            let counted = Tally {
                boxes: tally.boxes + 1,
                saw_mini: tally.saw_mini || kind == 0x6d69_6e69,
                ..tally
            };
            &&& !within ==> after is Err
            &&& within && !known(kind) ==> after == Ok::<Tally, Fault>(counted)
            &&& within && kind == 0x696e_6665 ==> after == match container::item_entry(
                bytes,
                found.start,
                found.end,
            ) {
                Ok(entry) => container::add_item(budget, counted, entry),
                Err(fault) => Err(fault),
            }
            &&& within && kind == 0x696c_6f63 ==> after == container::add_locations(
                bytes,
                budget,
                counted,
                found.start,
                found.end,
            )
            &&& within && kind == 0x6972_6566 ==> after == container::add_references(
                bytes,
                budget,
                counted,
                found.start,
                found.end,
            )
            &&& within && kind == 0x6970_6d61 ==> after == container::add_associations(
                bytes,
                budget,
                counted,
                found.start,
                found.end,
            )
            &&& within && kind == 0x7472_6566 ==> after == match container::track_lists(
                bytes,
                budget,
                found.start,
                found.end,
                tally.iref_references,
            ) {
                Ok(references) => Ok(Tally { iref_references: references, ..counted }),
                Err(fault) => Err(fault),
            }
            &&& within && kind == 0x6674_7970 && found.end - found.start >= 8 ==> after == Ok::<
                Tally,
                Fault,
            >(
                Tally {
                    sequence_brand: container::announces_sequence(bytes, found.start, found.end),
                    ..counted
                },
            )
            &&& kind == 0x6674_7970 && found.end - found.start < 8 ==> after is Err
        }),
{
}

/// Whether the walk looks into boxes of a type.
pub open spec fn known(kind: u32) -> bool {
    ||| kind == 0x6969_6e66
    ||| kind == 0x7374_7364
    ||| kind == 0x696e_6665
    ||| kind == 0x696c_6f63
    ||| kind == 0x6972_6566
    ||| kind == 0x6970_6d61
    ||| kind == 0x7472_6566
    ||| kind == 0x6674_7970
    ||| holds_boxes(kind) is Some
    ||| sample_entry(kind)
}

/// How far behind its header the boxes inside a box start, for the types that hold boxes.
pub open spec fn holds_boxes(kind: u32) -> Option<int> {
    if kind == 0x6d65_7461 {
        Some(4)
    } else if kind == 0x6472_6566 || kind == 0x7572_696d {
        Some(8)
    } else if kind == 0x6970_7270 || kind == 0x6970_636f || kind == 0x6469_6e66 || kind
        == 0x6772_706c || kind == 0x6d6f_6f76 || kind == 0x7472_616b || kind == 0x6d64_6961 || kind
        == 0x6d69_6e66 || kind == 0x7374_626c || kind == 0x6564_7473 || kind == 0x6a32_6b48 {
        Some(0)
    } else {
        None
    }
}

/// Whether a type is that of a visual sample entry.
pub open spec fn sample_entry(kind: u32) -> bool {
    kind == 0x6876_6331 || kind == 0x6176_3031 || kind == 0x7676_6331 || kind == 0x6176_6331 || kind
        == 0x6d6a_7067 || kind == 0x6a32_6b69
}

/// A box of boxes is counted with all the boxes inside, which lie one deeper and behind
/// what the box itself says: nothing, a version, or a version and a count. A sample entry
/// has its boxes behind seventy-eight bytes, and a name in them of thirty-one at most.
pub proof fn law_boxes_inside_boxes_are_counted(
    bytes: Seq<u8>,
    budget: Budget,
    tally: Tally,
    found: Region,
    depth: nat,
)
    requires
        0 <= found.start <= found.end <= bytes.len() <= usize::MAX,
        depth <= budget.max_container_depth,
        tally.boxes < budget.max_container_boxes,
    ensures
        ({
            let after = container::visited(bytes, budget, tally, found, depth);
            let counted = Tally {
                boxes: tally.boxes + 1,
                saw_meta: tally.saw_meta || found.kind == 0x6d65_7461,
                ..tally
            };
            &&& holds_boxes(found.kind) matches Some(behind) ==> {
                let first = found.start + behind;
                let inside = container::walked(bytes, budget, counted, first, found.end, depth + 1);
                &&& after is Ok <==> first <= found.end && inside is Ok
                &&& after is Ok ==> after->Ok_0 == inside->Ok_0.0
            }
            &&& sample_entry(found.kind) ==> {
                let first = found.start + 78;
                let inside = container::walked(bytes, budget, counted, first, found.end, depth + 1);
                &&& after is Ok <==> first <= found.end && bytes[found.start + 42] <= 31 && inside
                    is Ok
                &&& after is Ok ==> after->Ok_0 == inside->Ok_0.0
            }
        }),
{
}

/// An item information box holds as many boxes as it declares, in two bytes or, past its
/// first version, in four.
pub proof fn law_item_information_declares_its_entries(
    bytes: Seq<u8>,
    budget: Budget,
    tally: Tally,
    start: int,
    end: int,
    depth: nat,
)
    requires
        0 <= start,
        end <= bytes.len() <= usize::MAX,
    ensures
        ({
            let wide: nat = if bytes[start] == 0 {
                2
            } else {
                4
            };
            let after = container::item_information(bytes, budget, tally, start, end, depth);
            let inside = container::walked(bytes, budget, tally, start + 4 + wide, end, depth + 1);
            &&& after is Ok <==> start + 4 + wide <= end && inside is Ok && inside->Ok_0.1 == wire::be(
                bytes,
                start + 4,
                wide,
            )
            &&& after is Ok ==> after->Ok_0 == inside->Ok_0.0
        }),
{
    assert(wire::be(bytes, start, 1) == bytes[start]) by {
        reveal_with_fuel(wire::be, 2);
    }
}

/// A sample description box of its only version counts as many boxes as it declares in
/// four bytes, and what lies behind them is left alone.
pub proof fn law_sample_descriptions_count_their_entries(
    bytes: Seq<u8>,
    budget: Budget,
    tally: Tally,
    start: int,
    end: int,
    depth: nat,
)
    requires
        0 <= start,
        end <= bytes.len() <= usize::MAX,
    ensures
        ({
            let after = container::sample_description(bytes, budget, tally, start, end, depth);
            &&& start + 8 > end || bytes[start] != 0 ==> after is Err
            &&& start + 8 <= end && bytes[start] == 0 ==> after == container::sampled(
                bytes,
                budget,
                tally,
                start + 8,
                end,
                depth + 1,
                wire::be(bytes, start + 4, 4),
            )
        }),
{
    assert(wire::be(bytes, start, 1) == bytes[start]) by {
        reveal_with_fuel(wire::be, 2);
    }
}

/// Sample entries that lie one behind the other, and can be counted one by one, are
/// counted.
pub proof fn law_sample_entries_are_counted(
    bytes: Seq<u8>,
    budget: Budget,
    cuts: Seq<int>,
    tallies: Seq<Tally>,
    limit: int,
    depth: nat,
)
    requires
        laid_boxes(bytes, budget, cuts, tallies, limit, depth),
        0 <= cuts[0],
        limit <= bytes.len() <= usize::MAX,
    ensures
        container::sampled(bytes, budget, tallies[0], cuts[0], limit, depth, (cuts.len() - 1) as nat) == Ok::<
            Tally,
            Fault,
        >(tallies.last()),
    decreases cuts.len(),
{
    if cuts.len() > 1 {
        let later = cuts.skip(1);
        let rest = tallies.skip(1);
        assert(counts_one(
            bytes,
            budget,
            cuts[0],
            cuts[1],
            tallies[0],
            tallies[1],
            limit,
            depth,
        ));
        let found = choose|found: Region|
            {
                &&& #[trigger] box_at(bytes, cuts[0], limit, found)
                &&& found.end == cuts[1]
                &&& container::visited(bytes, budget, tallies[0], found, depth) == Ok::<Tally, Fault>(
                    tallies[1],
                )
            };
        law_boxes_are_found_where_they_lie(bytes, cuts[0], limit, found);
        assert forall|index: int| 0 <= index < later.len() - 1 implies counts_one(
            bytes,
            budget,
            later[index],
            later[index + 1],
            #[trigger] rest[index],
            rest[index + 1],
            limit,
            depth,
        ) by {
            assert(rest[index] == tallies[index + 1]);
        }
        law_sample_entries_are_counted(bytes, budget, later, rest, limit, depth);
    }
}

/// Sample entries that are accepted lie one behind the other and are all there.
pub proof fn law_accepted_sample_entries_are_there(
    bytes: Seq<u8>,
    budget: Budget,
    tally: Tally,
    offset: int,
    limit: int,
    depth: nat,
    count: nat,
) -> (laid: (Seq<int>, Seq<Tally>))
    requires
        0 <= offset,
        limit <= bytes.len() <= usize::MAX,
        container::sampled(bytes, budget, tally, offset, limit, depth, count) is Ok,
    ensures
        laid_boxes(bytes, budget, laid.0, laid.1, limit, depth),
        laid.0.len() == count + 1,
        laid.0[0] == offset,
        laid.1[0] == tally,
        container::sampled(bytes, budget, tally, offset, limit, depth, count) == Ok::<Tally, Fault>(
            laid.1.last(),
        ),
    decreases count,
{
    if count == 0 {
        (seq![offset], seq![tally])
    } else {
        let found = container::header_at(bytes, offset, limit)->Ok_0;
        law_boxes_are_found_where_they_lie(bytes, offset, limit, found);
        let inner = container::visited(bytes, budget, tally, found, depth)->Ok_0;
        let (cuts, tallies) = law_accepted_sample_entries_are_there(
            bytes,
            budget,
            inner,
            found.end,
            limit,
            depth,
            (count - 1) as nat,
        );
        let all_cuts = seq![offset] + cuts;
        let all = seq![tally] + tallies;
        assert(box_at(bytes, offset, limit, found));
        assert(counts_one(bytes, budget, offset, found.end, tally, inner, limit, depth));
        assert forall|index: int| 0 <= index < all_cuts.len() - 1 implies counts_one(
            bytes,
            budget,
            all_cuts[index],
            all_cuts[index + 1],
            #[trigger] all[index],
            all[index + 1],
            limit,
            depth,
        ) by {
            if index > 0 {
                assert(all[index] == tallies[index - 1]);
                assert(all[index + 1] == tallies[index - 1 + 1]);
                assert(all_cuts[index] == cuts[index - 1]);
                assert(all_cuts[index + 1] == cuts[index - 1 + 1]);
            }
        }
        assert(all.last() == tallies.last());
        (all_cuts, all)
    }
}

/// A container is accepted where its boxes can all be walked from the start to the end of
/// the file, one of them holds metadata or is a small image or a brand announces a
/// sequence, and what its items load is within the ceiling.
pub proof fn law_containers_are_judged_by_their_boxes(bytes: Seq<u8>, budget: Budget)
    ensures
        ({
            let walk = container::walked(bytes, budget, container::empty_tally(), 0, bytes.len() as int, 0);
            let tally = walk->Ok_0.0;
            &&& container::inspected(bytes, budget) is Ok <==> walk is Ok && (tally.saw_meta || tally.saw_mini
                || tally.sequence_brand) && container::metadata_bytes(tally.metadata_items, tally.extents)
                <= budget.max_metadata_bytes
            &&& container::inspected(bytes, budget) is Ok ==> container::inspected(bytes, budget) == Ok::<Tally, Fault>(
                tally,
            )
            &&& container::empty_tally().boxes == 0 && container::empty_tally().items == 0
            &&& container::empty_tally().iloc_records == 0
                && container::empty_tally().iref_references == 0
            &&& container::empty_tally().ipma_entries == 0
                && container::empty_tally().ipma_associations == 0
            &&& container::empty_tally().metadata_items.len() == 0
                && container::empty_tally().extents.len() == 0
            &&& !container::empty_tally().saw_meta && !container::empty_tally().saw_mini && !container::empty_tally().sequence_brand
        }),
{
}

} // verus!
