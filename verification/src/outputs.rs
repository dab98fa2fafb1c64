//! Where on the screens the greeter asks for the password.

use vstd::prelude::*;

use crate::text::{same, begins_with};

verus! {

/// The part of the layout that one screen covers, relative to the layout's corner.
#[derive(Clone, Copy, Debug, PartialEq, Eq, Structural)]
pub struct Region {
    pub x: i32,
    pub y: i32,
    pub width: i32,
    pub height: i32,
    pub layout_width: i32,
    pub layout_height: i32,
}

/// A screen, in the compositor's coordinates.
#[derive(Debug, PartialEq, Eq)]
pub struct Output {
    pub name: Option<String>,
    pub position: (i32, i32),
    pub size: (i32, i32),
}

/// What the compositor says about a screen.
#[derive(Debug)]
pub struct OutputInfo {
    pub name: Option<String>,
    pub logical_position: Option<(i32, i32)>,
    pub logical_size: Option<(i32, i32)>,
}

/// Whether a screen is placed and not empty.
pub open spec fn usable(info: OutputInfo) -> bool {
    info.logical_position is Some && (info.logical_size matches Some(size) && size.0 > 0 && size.1
        > 0)
}

/// The screen that a compositor speaks of.
pub open spec fn output_of(info: OutputInfo) -> Output {
    Output {
        name: info.name,
        position: info.logical_position->Some_0,
        size: info.logical_size->Some_0,
    }
}

/// The usable ones of the first `count` screens.
pub open spec fn placed(infos: Seq<OutputInfo>, count: int) -> Seq<Output>
    decreases count,
{
    if count <= 0 {
        Seq::empty()
    } else if usable(infos[count - 1]) {
        placed(infos, count - 1).push(output_of(infos[count - 1]))
    } else {
        placed(infos, count - 1)
    }
}

/// The screens that are placed and not empty.
pub fn placed_outputs(infos: Vec<OutputInfo>) -> (outputs: Vec<Output>)
    ensures
        outputs@ == placed(infos@, infos@.len() as int),
{
    let ghost all = infos@;
    let ghost mut count: int = 0;
    let mut rest = infos;
    let mut outputs: Vec<Output> = Vec::new();
    assert(rest@ =~= all.skip(0));
    while rest.len() > 0
        invariant
            0 <= count <= all.len(),
            rest@ == all.skip(count),
            outputs@ == placed(all, count),
        decreases rest@.len(),
    {
        let info = rest.remove(0);
        assert(info == all[count]);
        assert(rest@ =~= all.skip(count + 1));
        if let Some(position) = info.logical_position {
            if let Some(size) = info.logical_size {
                if size.0 > 0 && size.1 > 0 {
                    outputs.push(Output { name: info.name, position, size });
                }
            }
        }
        proof {
            count = count + 1;
        }
    }
    outputs
}

/// Where a screen begins, across or down.
pub open spec fn start(output: Output, across: bool) -> int {
    if across {
        output.position.0 as int
    } else {
        output.position.1 as int
    }
}

/// Where a screen ends, across or down, as far as a coordinate can say.
pub open spec fn end(output: Output, across: bool) -> int {
    let sum = if across {
        output.position.0 + output.size.0
    } else {
        output.position.1 + output.size.1
    };
    if sum > i32::MAX {
        i32::MAX as int
    } else if sum < i32::MIN {
        i32::MIN as int
    } else {
        sum
    }
}

/// Where the first `count` screens begin.
pub open spec fn near_edge(outputs: Seq<Output>, count: int, across: bool) -> int
    decreases count,
{
    if count <= 1 {
        start(outputs[0], across)
    } else {
        let before = near_edge(outputs, count - 1, across);
        let next = start(outputs[count - 1], across);
        if next < before {
            next
        } else {
            before
        }
    }
}

/// Where the first `count` screens end.
pub open spec fn far_edge(outputs: Seq<Output>, count: int, across: bool) -> int
    decreases count,
{
    if count <= 1 {
        end(outputs[0], across)
    } else {
        let before = far_edge(outputs, count - 1, across);
        let next = end(outputs[count - 1], across);
        if next > before {
            next
        } else {
            before
        }
    }
}

/// Whether a coordinate can say how far the layout reaches, and how far a screen is
/// from its corner.
pub open spec fn spans(outputs: Seq<Output>, selected: int) -> bool {
    let size = outputs.len() as int;
    forall|across: bool|
        {
            &&& i32::MIN <= #[trigger] far_edge(outputs, size, across) - near_edge(
                outputs,
                size,
                across,
            ) <= i32::MAX
            &&& start(outputs[selected], across) - near_edge(outputs, size, across) <= i32::MAX
        }
}

/// The region of one screen.
pub open spec fn region_of(outputs: Seq<Output>, selected: int) -> Region {
    let size = outputs.len() as int;
    Region {
        x: (start(outputs[selected], true) - near_edge(outputs, size, true)) as i32,
        y: (start(outputs[selected], false) - near_edge(outputs, size, false)) as i32,
        width: outputs[selected].size.0,
        height: outputs[selected].size.1,
        layout_width: (far_edge(outputs, size, true) - near_edge(outputs, size, true)) as i32,
        layout_height: (far_edge(outputs, size, false) - near_edge(outputs, size, false)) as i32,
    }
}

fn saturated(left: i32, right: i32) -> (sum: i32)
    ensures
        sum == if left + right > i32::MAX {
            i32::MAX as int
        } else if left + right < i32::MIN {
            i32::MIN as int
        } else {
            left + right
        },
{
    let sum: i64 = left as i64 + right as i64;
    if sum > 0x7fff_ffff {
        i32::MAX
    } else if sum < -0x8000_0000 {
        i32::MIN
    } else {
        sum as i32
    }
}

fn output_start(output: &Output, across: bool) -> (edge: i32)
    ensures
        edge == start(*output, across),
{
    if across {
        output.position.0
    } else {
        output.position.1
    }
}

fn output_end(output: &Output, across: bool) -> (edge: i32)
    ensures
        edge == end(*output, across),
{
    if across {
        saturated(output.position.0, output.size.0)
    } else {
        saturated(output.position.1, output.size.1)
    }
}

fn layout_edges(outputs: &Vec<Output>, across: bool) -> (edges: (i32, i32))
    requires
        outputs@.len() > 0,
    ensures
        edges.0 == near_edge(outputs@, outputs@.len() as int, across),
        edges.1 == far_edge(outputs@, outputs@.len() as int, across),
{
    let mut near: i32 = output_start(&outputs[0], across);
    let mut far: i32 = output_end(&outputs[0], across);
    let mut index: usize = 1;
    while index < outputs.len()
        invariant
            1 <= index <= outputs@.len(),
            near == near_edge(outputs@, index as int, across),
            far == far_edge(outputs@, index as int, across),
        decreases outputs@.len() - index,
    {
        let begin: i32 = output_start(&outputs[index], across);
        let finish: i32 = output_end(&outputs[index], across);
        if begin < near {
            near = begin;
        }
        if finish > far {
            far = finish;
        }
        index += 1;
    }
    (near, far)
}

fn fits(value: i64) -> (answer: bool)
    ensures
        answer == (i32::MIN <= value <= i32::MAX),
{
    -0x8000_0000 <= value && value <= 0x7fff_ffff
}

/// Whether the region of a screen can be told in coordinates.
pub fn layout_fits(outputs: &Vec<Output>, selected: usize) -> (answer: bool)
    requires
        selected < outputs@.len(),
    ensures
        answer == spans(outputs@, selected as int),
{
    let (left, right) = layout_edges(outputs, true);
    let (top, bottom) = layout_edges(outputs, false);
    let x: i64 = output_start(&outputs[selected], true) as i64 - left as i64;
    let y: i64 = output_start(&outputs[selected], false) as i64 - top as i64;
    let answer = fits(right as i64 - left as i64) && fits(bottom as i64 - top as i64) && x
        <= 0x7fff_ffff && y <= 0x7fff_ffff;
    proof {
        let size = outputs@.len() as int;
        let _ = far_edge(outputs@, size, true);
        let _ = far_edge(outputs@, size, false);
        if answer {
            assert forall|across: bool|
                {
                    &&& i32::MIN <= #[trigger] far_edge(outputs@, size, across) - near_edge(
                        outputs@,
                        size,
                        across,
                    ) <= i32::MAX
                    &&& start(outputs@[selected as int], across) - near_edge(
                        outputs@,
                        size,
                        across,
                    ) <= i32::MAX
                } by {
                if across {
                } else {
                }
            }
        }
    }
    answer
}

proof fn lemma_near_edge(outputs: Seq<Output>, count: int, selected: int, across: bool)
    requires
        0 <= selected < count <= outputs.len(),
    ensures
        near_edge(outputs, count, across) <= start(outputs[selected], across),
        end(outputs[selected], across) <= far_edge(outputs, count, across),
    decreases count,
{
    if count > 1 && selected < count - 1 {
        lemma_near_edge(outputs, count - 1, selected, across);
    }
}

/// What the name of a built-in panel starts with.
pub const INTERNAL_PREFIX: &'static str = "eDP";

/// Whether a screen goes by a name.
pub open spec fn named(output: Output, name: Seq<char>) -> bool {
    output.name matches Some(own) && own@ == name
}

/// Whether a screen is known not to be a built-in panel.
pub open spec fn external(output: Output) -> bool {
    output.name matches Some(name) && !INTERNAL_PREFIX@.is_prefix_of(name@)
}

/// The first screen from `from` on that goes by a name.
pub open spec fn first_named(outputs: Seq<Output>, name: Seq<char>, from: int) -> Option<int>
    decreases outputs.len() - from,
{
    if from < 0 || from >= outputs.len() {
        None
    } else if named(outputs[from], name) {
        Some(from)
    } else {
        first_named(outputs, name, from + 1)
    }
}

/// The first screen from `from` on that is not a built-in panel.
pub open spec fn first_external(outputs: Seq<Output>, from: int) -> Option<int>
    decreases outputs.len() - from,
{
    if from < 0 || from >= outputs.len() {
        None
    } else if external(outputs[from]) {
        Some(from)
    } else {
        first_external(outputs, from + 1)
    }
}

/// The screen that was asked for by name, or else an external one, or else the first.
pub open spec fn chosen(outputs: Seq<Output>, requested: Option<Seq<char>>) -> Option<int> {
    let wanted = match requested {
        Some(name) => first_named(outputs, name, 0),
        None => None,
    };
    if wanted is Some {
        wanted
    } else if first_external(outputs, 0) is Some {
        first_external(outputs, 0)
    } else if outputs.len() > 0 {
        Some(0)
    } else {
        None
    }
}

/// A name that was asked for, if any.
pub open spec fn name_of(requested: Option<&str>) -> Option<Seq<char>> {
    match requested {
        Some(name) => Some(name@),
        None => None,
    }
}

fn find_named(outputs: &Vec<Output>, name: &str) -> (found: Option<usize>)
    ensures
        (match found {
            Some(found) => Some(found as int),
            None => None,
        }) == first_named(outputs@, name@, 0),
        found matches Some(found) ==> found < outputs@.len(),
{
    let mut index: usize = 0;
    while index < outputs.len()
        invariant
            index <= outputs@.len(),
            first_named(outputs@, name@, 0) == first_named(outputs@, name@, index as int),
        decreases outputs@.len() - index,
    {
        if let Some(own) = &outputs[index].name {
            if same(own.as_str(), name) {
                return Some(index);
            }
        }
        index += 1;
    }
    None
}

fn find_external(outputs: &Vec<Output>) -> (found: Option<usize>)
    ensures
        (match found {
            Some(found) => Some(found as int),
            None => None,
        }) == first_external(outputs@, 0),
        found matches Some(found) ==> found < outputs@.len(),
{
    let mut index: usize = 0;
    while index < outputs.len()
        invariant
            index <= outputs@.len(),
            first_external(outputs@, 0) == first_external(outputs@, index as int),
        decreases outputs@.len() - index,
    {
        if let Some(name) = &outputs[index].name {
            if !begins_with(name.as_str(), INTERNAL_PREFIX) {
                return Some(index);
            }
        }
        index += 1;
    }
    None
}

/// The screen that was asked for by name, or else an external one, or else the first.
pub fn select_output(outputs: &Vec<Output>, requested: Option<&str>) -> (selected: Option<usize>)
    ensures
        (match selected {
            Some(selected) => Some(selected as int),
            None => None,
        }) == chosen(outputs@, name_of(requested)),
        selected matches Some(selected) ==> selected < outputs@.len(),
{
    if let Some(name) = requested {
        if let Some(found) = find_named(outputs, name) {
            return Some(found);
        }
    }
    if let Some(found) = find_external(outputs) {
        return Some(found);
    }
    if outputs.len() > 0 {
        Some(0)
    } else {
        None
    }
}

/// The region of the screen that is selected. There is none where there is no screen.
pub fn select_region(outputs: &Vec<Output>, requested: Option<&str>) -> (region: Option<Region>)
    requires
        chosen(outputs@, name_of(requested)) matches Some(selected) ==> spans(outputs@, selected),
    ensures
        region == match chosen(outputs@, name_of(requested)) {
            Some(selected) => Some(region_of(outputs@, selected)),
            None => None,
        },
{
    let selected: usize = match select_output(outputs, requested) {
        Some(selected) => selected,
        None => return None,
    };
    let (left, right) = layout_edges(outputs, true);
    let (top, bottom) = layout_edges(outputs, false);
    proof {
        let size = outputs@.len() as int;
        assert(far_edge(outputs@, size, true) == right);
        assert(far_edge(outputs@, size, false) == bottom);
        lemma_near_edge(outputs@, size, selected as int, true);
        lemma_near_edge(outputs@, size, selected as int, false);
    }
    Some(
        Region {
            x: outputs[selected].position.0 - left,
            y: outputs[selected].position.1 - top,
            width: outputs[selected].size.0,
            height: outputs[selected].size.1,
            layout_width: right - left,
            layout_height: bottom - top,
        },
    )
}

/// The region on show, and how often it changed.
#[derive(Clone, Copy, Debug, PartialEq, Eq, Structural)]
pub struct Published {
    pub region: Option<Region>,
    pub sequence: u64,
}

/// The region on show after another one was found.
pub open spec fn republished(published: Published, region: Option<Region>) -> Published {
    if published.region == region {
        published
    } else {
        Published {
            region,
            sequence: if published.sequence == u64::MAX {
                0
            } else {
                (published.sequence + 1) as u64
            },
        }
    }
}

impl Published {
    /// Takes a region, and says whether it is another one.
    pub fn publish(&mut self, region: Option<Region>) -> (changed: bool)
        ensures
            *final(self) == republished(*old(self), region),
            changed == (old(self).region != region),
    {
        let same = match (self.region, region) {
            (Some(current), Some(next)) => current == next,
            (None, None) => true,
            _ => false,
        };
        if same {
            return false;
        }
        self.region = region;
        self.sequence = if self.sequence == u64::MAX {
            0
        } else {
            self.sequence + 1
        };
        true
    }
}

/// Whether a compositor connection was handed over, which then belongs to the
/// greeter's window.
pub fn inherited_wayland_socket(value: Option<&[u8]>) -> (inherited: bool)
    ensures
        inherited == (value matches Some(value) && value@.len() > 0),
{
    match value {
        Some(value) => value.len() > 0,
        None => false,
    }
}

// ---------------------------------------------------------------------------
// Watching
// ---------------------------------------------------------------------------

/// What came of writing to, or reading from, the compositor.
#[derive(Clone, Copy, Debug, PartialEq, Eq, Structural)]
pub enum Transfer {
    Done,
    /// Not now.
    WouldBlock,
    Failed,
}

/// What came of the watcher's last action.
#[derive(Clone, Copy, Debug, PartialEq, Eq, Structural)]
pub enum WatchEvent {
    /// The pending events were handled, which worked or not, and the screens
    /// changed or not.
    Dispatched { worked: bool, changed: bool },
    /// The region was looked at again.
    Published,
    Flushed(Transfer),
    /// Whether nothing is pending, so that reading is possible.
    Prepared(bool),
    /// The wait was interrupted.
    Interrupted,
    /// The wait failed.
    WaitFailed,
    /// The wait ended: whether the connection can be read, whether it is closed,
    /// and whether the watcher is to stop.
    Woken { readable: bool, closed: bool, stop: bool },
    Read(Transfer),
}

/// What the watcher does next.
#[derive(Clone, Copy, Debug, PartialEq, Eq, Structural)]
pub enum WatchAction {
    Dispatch,
    Publish,
    Flush,
    /// Prepare to read, remembering whether something is left to write.
    Prepare { writing: bool },
    /// Wait for the connection, also until it can be written where the flag is set.
    Wait { writing: bool },
    Read,
    Stop,
    /// Stop, and say that writing failed.
    StopFlushing,
    /// Stop, and say that reading failed.
    StopReading,
    /// Stop, and say that the connection is closed.
    StopClosed,
}

/// What follows an event. `writing` says whether something is left to write.
pub open spec fn watched(writing: bool, event: WatchEvent) -> WatchAction {
    match event {
        WatchEvent::Dispatched { worked, changed } => if !worked {
            WatchAction::Stop
        } else if changed {
            WatchAction::Publish
        } else {
            WatchAction::Flush
        },
        WatchEvent::Published => WatchAction::Flush,
        WatchEvent::Flushed(Transfer::Done) => WatchAction::Prepare { writing: false },
        WatchEvent::Flushed(Transfer::WouldBlock) => WatchAction::Prepare { writing: true },
        WatchEvent::Flushed(Transfer::Failed) => WatchAction::StopFlushing,
        WatchEvent::Prepared(ready) => if ready {
            WatchAction::Wait { writing }
        } else {
            WatchAction::Dispatch
        },
        WatchEvent::Interrupted => WatchAction::Dispatch,
        WatchEvent::WaitFailed => WatchAction::Stop,
        WatchEvent::Woken { readable, closed, stop } => if stop {
            WatchAction::Stop
        } else if readable {
            WatchAction::Read
        } else if closed {
            WatchAction::StopClosed
        } else {
            WatchAction::Dispatch
        },
        WatchEvent::Read(Transfer::Failed) => WatchAction::StopReading,
        WatchEvent::Read(_) => WatchAction::Dispatch,
    }
}

/// Decides what follows an event.
pub fn watch(writing: bool, event: WatchEvent) -> (action: WatchAction)
    ensures
        action == watched(writing, event),
{
    match event {
        WatchEvent::Dispatched { worked, changed } => if !worked {
            WatchAction::Stop
        } else if changed {
            WatchAction::Publish
        } else {
            WatchAction::Flush
        },
        WatchEvent::Published => WatchAction::Flush,
        WatchEvent::Flushed(Transfer::Done) => WatchAction::Prepare { writing: false },
        WatchEvent::Flushed(Transfer::WouldBlock) => WatchAction::Prepare { writing: true },
        WatchEvent::Flushed(Transfer::Failed) => WatchAction::StopFlushing,
        WatchEvent::Prepared(ready) => if ready {
            WatchAction::Wait { writing }
        } else {
            WatchAction::Dispatch
        },
        WatchEvent::Interrupted => WatchAction::Dispatch,
        WatchEvent::WaitFailed => WatchAction::Stop,
        WatchEvent::Woken { readable, closed, stop } => if stop {
            WatchAction::Stop
        } else if readable {
            WatchAction::Read
        } else if closed {
            WatchAction::StopClosed
        } else {
            WatchAction::Dispatch
        },
        WatchEvent::Read(Transfer::Failed) => WatchAction::StopReading,
        WatchEvent::Read(_) => WatchAction::Dispatch,
    }
}

/// A screen that ends where a coordinate can say lies within the layout.
pub proof fn law_regions_lie_within_the_layout(outputs: Seq<Output>, selected: int)
    requires
        0 <= selected < outputs.len(),
        spans(outputs, selected),
        outputs[selected].size.0 > 0,
        outputs[selected].size.1 > 0,
        outputs[selected].position.0 + outputs[selected].size.0 <= i32::MAX,
        outputs[selected].position.1 + outputs[selected].size.1 <= i32::MAX,
    ensures
        ({
            let region = region_of(outputs, selected);
            &&& 0 <= region.x
            &&& 0 <= region.y
            &&& region.x + region.width <= region.layout_width
            &&& region.y + region.height <= region.layout_height
        }),
{
    let size = outputs.len() as int;
    lemma_near_edge(outputs, size, selected, true);
    lemma_near_edge(outputs, size, selected, false);
    assert(far_edge(outputs, size, true) - near_edge(outputs, size, true) <= i32::MAX);
    assert(far_edge(outputs, size, false) - near_edge(outputs, size, false) <= i32::MAX);
}

/// Wherever there is a screen, one is selected: the first that was asked for by name;
/// without it the first external one; and a built-in panel only where there is no
/// other.
pub proof fn law_an_external_screen_comes_first(
    outputs: Seq<Output>,
    requested: Option<Seq<char>>,
    index: int,
)
    requires
        0 <= index < outputs.len(),
    ensures
        chosen(outputs, requested) matches Some(selected) && 0 <= selected < outputs.len() && {
            ||| requested matches Some(name) && named(outputs[selected], name)
            ||| external(outputs[selected])
            ||| selected == 0 && !external(outputs[index])
        },
        requested matches Some(name) && named(outputs[index], name) ==> named(
            outputs[chosen(outputs, requested)->Some_0],
            requested->Some_0,
        ) && chosen(outputs, requested)->Some_0 <= index,
{
    if let Some(name) = requested {
        lemma_first_named(outputs, name, 0, index);
    }
    lemma_first_external(outputs, 0, index);
}

proof fn lemma_first_named(outputs: Seq<Output>, name: Seq<char>, from: int, index: int)
    requires
        0 <= from <= index < outputs.len(),
    ensures
        match first_named(outputs, name, from) {
            Some(found) => from <= found < outputs.len() && named(outputs[found], name) && (named(
                outputs[index],
                name,
            ) ==> found <= index),
            None => !named(outputs[index], name),
        },
    decreases outputs.len() - from,
{
    reveal_with_fuel(first_named, 2);
    if !named(outputs[from], name) && from + 1 < outputs.len() {
        lemma_first_named(
            outputs,
            name,
            from + 1,
            if index > from {
                index
            } else {
                from + 1
            },
        );
    }
}

proof fn lemma_first_external(outputs: Seq<Output>, from: int, index: int)
    requires
        0 <= from <= index < outputs.len(),
    ensures
        match first_external(outputs, from) {
            Some(found) => from <= found < outputs.len() && external(outputs[found]),
            None => !external(outputs[index]),
        },
    decreases outputs.len() - from,
{
    reveal_with_fuel(first_external, 2);
    if !external(outputs[from]) && from + 1 < outputs.len() {
        lemma_first_external(
            outputs,
            from + 1,
            if index > from {
                index
            } else {
                from + 1
            },
        );
    }
}

/// Looking twice at the same screens announces nothing new.
pub proof fn law_unchanged_layouts_are_not_announced(published: Published, region: Option<Region>)
    ensures
        republished(republished(published, region), region) == republished(published, region),
{
}

/// Neither a full connection nor an interruption ends the watch.
pub proof fn law_backpressure_is_recoverable(writing: bool)
    ensures
        watched(writing, WatchEvent::Flushed(Transfer::WouldBlock)) == (WatchAction::Prepare {
            writing: true,
        }),
        watched(writing, WatchEvent::Read(Transfer::WouldBlock)) == WatchAction::Dispatch,
        watched(writing, WatchEvent::Interrupted) == WatchAction::Dispatch,
{
}

/// A sum as far as a coordinate can say it.
pub open spec fn clipped(sum: int) -> int {
    if sum < i32::MIN {
        i32::MIN as int
    } else if sum > i32::MAX {
        i32::MAX as int
    } else {
        sum
    }
}

/// The layout is the tightest box round the screens: none begins before its corner
/// or ends past its far edges, and each edge is that of some screen. The region keeps
/// the size of its screen.
pub proof fn law_the_layout_is_the_tightest_box(outputs: Seq<Output>, selected: int) -> (touching:
    (int, int, int, int))
    requires
        0 <= selected < outputs.len(),
        spans(outputs, selected),
    ensures
        ({
            let region = region_of(outputs, selected);
            let left = outputs[selected].position.0 - region.x;
            let top = outputs[selected].position.1 - region.y;
            let (leftmost, topmost, rightmost, lowest) = touching;
            &&& region.width == outputs[selected].size.0
            &&& region.height == outputs[selected].size.1
            &&& forall|index: int|
                0 <= index < outputs.len() ==> {
                    let output = #[trigger] outputs[index];
                    &&& left <= output.position.0
                    &&& top <= output.position.1
                    &&& clipped(output.position.0 + output.size.0) <= left + region.layout_width
                    &&& clipped(output.position.1 + output.size.1) <= top + region.layout_height
                }
            &&& 0 <= leftmost < outputs.len() && outputs[leftmost].position.0 == left
            &&& 0 <= topmost < outputs.len() && outputs[topmost].position.1 == top
            &&& 0 <= rightmost < outputs.len() && clipped(
                outputs[rightmost].position.0 + outputs[rightmost].size.0,
            ) == left + region.layout_width
            &&& 0 <= lowest < outputs.len() && clipped(
                outputs[lowest].position.1 + outputs[lowest].size.1,
            ) == top + region.layout_height
        }),
{
    let size = outputs.len() as int;
    assert(far_edge(outputs, size, true) - near_edge(outputs, size, true) <= i32::MAX);
    assert(far_edge(outputs, size, false) - near_edge(outputs, size, false) <= i32::MAX);
    let (leftmost, rightmost) = lemma_edges_are_touched(outputs, size, true);
    let (topmost, lowest) = lemma_edges_are_touched(outputs, size, false);
    lemma_near_edge(outputs, size, selected, true);
    lemma_near_edge(outputs, size, selected, false);
    assert forall|index: int| 0 <= index < outputs.len() implies {
        let output = #[trigger] outputs[index];
        &&& near_edge(outputs, size, true) <= output.position.0
        &&& near_edge(outputs, size, false) <= output.position.1
        &&& clipped(output.position.0 + output.size.0) <= far_edge(outputs, size, true)
        &&& clipped(output.position.1 + output.size.1) <= far_edge(outputs, size, false)
    } by {
        lemma_near_edge(outputs, size, index, true);
        lemma_near_edge(outputs, size, index, false);
    }
    (leftmost, topmost, rightmost, lowest)
}

proof fn lemma_edges_are_touched(outputs: Seq<Output>, count: int, across: bool) -> (touching: (
    int,
    int,
))
    requires
        1 <= count <= outputs.len(),
    ensures
        0 <= touching.0 < count,
        0 <= touching.1 < count,
        start(outputs[touching.0], across) == near_edge(outputs, count, across),
        end(outputs[touching.1], across) == far_edge(outputs, count, across),
    decreases count,
{
    if count == 1 {
        (0, 0)
    } else {
        let (near, far) = lemma_edges_are_touched(outputs, count - 1, across);
        (
            if start(outputs[count - 1], across) < near_edge(outputs, count - 1, across) {
                count - 1
            } else {
                near
            },
            if end(outputs[count - 1], across) > far_edge(outputs, count - 1, across) {
                count - 1
            } else {
                far
            },
        )
    }
}

/// A screen that stands alone is the whole layout.
pub proof fn law_a_single_screen_is_the_layout(output: Output)
    requires
        0 <= output.size.0,
        0 <= output.size.1,
        output.position.0 + output.size.0 <= i32::MAX,
        output.position.1 + output.size.1 <= i32::MAX,
    ensures
        spans(seq![output], 0),
        region_of(seq![output], 0) == (Region {
            x: 0,
            y: 0,
            width: output.size.0,
            height: output.size.1,
            layout_width: output.size.0,
            layout_height: output.size.1,
        }),
{
}

/// Where the compositor puts the origin does not matter: screens that are all moved by
/// one vector, none of them past what a coordinate can say, have the same regions.
pub proof fn law_moving_all_screens_changes_no_region(
    outputs: Seq<Output>,
    moved: Seq<Output>,
    selected: int,
    right: int,
    down: int,
)
    requires
        0 <= selected < outputs.len(),
        moved.len() == outputs.len(),
        forall|index: int|
            0 <= index < outputs.len() ==> {
                let before = #[trigger] outputs[index];
                let after = moved[index];
                &&& after.size == before.size
                &&& after.position.0 == before.position.0 + right
                &&& after.position.1 == before.position.1 + down
                &&& i32::MIN <= before.position.0 + before.size.0 <= i32::MAX
                &&& i32::MIN <= before.position.1 + before.size.1 <= i32::MAX
                &&& i32::MIN <= after.position.0 + after.size.0 <= i32::MAX
                &&& i32::MIN <= after.position.1 + after.size.1 <= i32::MAX
            },
    ensures
        region_of(moved, selected) == region_of(outputs, selected),
{
    let size = outputs.len() as int;
    lemma_moved_edges(outputs, moved, size, right, down);
    assert(outputs[selected].size == moved[selected].size);
}

proof fn lemma_moved_edges(
    outputs: Seq<Output>,
    moved: Seq<Output>,
    count: int,
    right: int,
    down: int,
)
    requires
        1 <= count <= outputs.len(),
        moved.len() == outputs.len(),
        forall|index: int|
            0 <= index < outputs.len() ==> {
                let before = #[trigger] outputs[index];
                let after = moved[index];
                &&& after.size == before.size
                &&& after.position.0 == before.position.0 + right
                &&& after.position.1 == before.position.1 + down
                &&& i32::MIN <= before.position.0 + before.size.0 <= i32::MAX
                &&& i32::MIN <= before.position.1 + before.size.1 <= i32::MAX
                &&& i32::MIN <= after.position.0 + after.size.0 <= i32::MAX
                &&& i32::MIN <= after.position.1 + after.size.1 <= i32::MAX
            },
    ensures
        near_edge(moved, count, true) == near_edge(outputs, count, true) + right,
        near_edge(moved, count, false) == near_edge(outputs, count, false) + down,
        far_edge(moved, count, true) == far_edge(outputs, count, true) + right,
        far_edge(moved, count, false) == far_edge(outputs, count, false) + down,
    decreases count,
{
    let last = outputs[count - 1];
    if count > 1 {
        lemma_moved_edges(outputs, moved, count - 1, right, down);
    }
}

/// A built-in panel is told by the first letters of its name alone, and a screen
/// without a name is not taken for an external one.
pub proof fn law_panels_are_told_by_their_names(output: Output)
    ensures
        external(output) <==> (output.name matches Some(name) && !(name@.len() >= 3 && name@[0]
            == 'e' && name@[1] == 'D' && name@[2] == 'P')),
{
    reveal_strlit("eDP");
    if let Some(name) = output.name {
        let prefix = INTERNAL_PREFIX@;
        if name@.len() >= 3 && name@[0] == 'e' && name@[1] == 'D' && name@[2] == 'P' {
            assert(name@.subrange(0, 3) =~= prefix);
        } else if prefix.is_prefix_of(name@) {
            assert(name@.subrange(0, 3)[0] == prefix[0]);
            assert(name@.subrange(0, 3)[1] == prefix[1]);
            assert(name@.subrange(0, 3)[2] == prefix[2]);
        }
    }
}

/// Of the screens that may be selected the first is: by name, or, where no screen goes
/// by that name, among the external ones; a name that no screen goes by is as good as
/// none.
pub proof fn law_the_first_screen_that_qualifies_is_selected(
    outputs: Seq<Output>,
    requested: Option<Seq<char>>,
    index: int,
)
    requires
        0 <= index < outputs.len(),
    ensures
        chosen(outputs, requested) matches Some(selected) && {
            ||| requested matches Some(name) && (outputs[selected].name matches Some(own) && own@
                == name)
            ||| (external(outputs[index]) ==> selected <= index)
        },
        requested matches Some(name) && (outputs[index].name matches Some(own) && own@ == name)
            ==> (outputs[chosen(outputs, requested)->Some_0].name matches Some(own) && own@
            == requested->Some_0) && chosen(outputs, requested)->Some_0 <= index,
        (forall|other: int|
            0 <= other < outputs.len() ==> !(requested matches Some(name) && (
            (#[trigger] outputs[other]).name matches Some(own) && own@ == name))) ==> chosen(
            outputs,
            requested,
        ) == chosen(outputs, None),
        outputs.len() == 0 <==> chosen(outputs, requested) is None,
{
    law_an_external_screen_comes_first(outputs, requested, index);
    lemma_first_external_is_first(outputs, 0, index);
    if let Some(name) = requested {
        lemma_first_named(outputs, name, 0, index);
    }
}

proof fn lemma_first_external_is_first(outputs: Seq<Output>, from: int, index: int)
    requires
        0 <= from <= index < outputs.len(),
    ensures
        external(outputs[index]) ==> (first_external(outputs, from) matches Some(found) && found
            <= index),
    decreases index - from,
{
    if from < index && !external(outputs[from]) {
        lemma_first_external_is_first(outputs, from + 1, index);
    }
}

/// A screen takes part where the compositor tells its place and a size that is not
/// empty, and then as it is told.
pub proof fn law_screens_with_a_place_and_a_size_take_part(info: OutputInfo)
    ensures
        placed(seq![info], 1) == match (info.logical_position, info.logical_size) {
            (Some(position), Some(size)) => if size.0 >= 1 && size.1 >= 1 {
                seq![Output { name: info.name, position, size }]
            } else {
                Seq::empty()
            },
            _ => Seq::empty(),
        },
{
    reveal_with_fuel(placed, 2);
    assert(placed(seq![info], 0) =~= Seq::empty());
    assert(placed(seq![info], 1) =~= match (info.logical_position, info.logical_size) {
        (Some(position), Some(size)) => if size.0 >= 1 && size.1 >= 1 {
            seq![Output { name: info.name, position, size }]
        } else {
            Seq::empty()
        },
        _ => Seq::empty(),
    });
}

/// Screens are told one by one and in order: those of two lists together are those of
/// the first and then those of the second.
pub proof fn law_screens_keep_their_order(first: Seq<OutputInfo>, second: Seq<OutputInfo>)
    ensures
        placed(first + second, (first + second).len() as int) == placed(first, first.len() as int)
            + placed(second, second.len() as int),
{
    lemma_placed_together(first, second, second.len() as int);
}

proof fn lemma_placed_together(first: Seq<OutputInfo>, second: Seq<OutputInfo>, count: int)
    requires
        0 <= count <= second.len(),
    ensures
        placed(first + second, first.len() + count) == placed(first, first.len() as int) + placed(
            second,
            count,
        ),
    decreases count,
{
    let both = first + second;
    if count > 0 {
        lemma_placed_together(first, second, count - 1);
        assert(both[first.len() + count - 1] == second[count - 1]);
        assert(placed(both, first.len() + count) =~= placed(first, first.len() as int) + placed(
            second,
            count,
        ));
    } else {
        lemma_placed_prefix(first, second, first.len() as int);
        assert(placed(both, first.len() as int) =~= placed(first, first.len() as int) + placed(
            second,
            0,
        ));
    }
}

proof fn lemma_placed_prefix(first: Seq<OutputInfo>, second: Seq<OutputInfo>, count: int)
    requires
        0 <= count <= first.len(),
    ensures
        placed(first + second, count) == placed(first, count),
    decreases count,
{
    if count > 0 {
        lemma_placed_prefix(first, second, count - 1);
        assert((first + second)[count - 1] == first[count - 1]);
    }
}

/// What is on show is always the region that was found last, and it is announced, under
/// another number, where it differs from the one before.
pub proof fn law_another_region_is_announced(published: Published, region: Option<Region>)
    ensures
        republished(published, region).region == region,
        region != published.region <==> republished(published, region).sequence
            != published.sequence,
        region != published.region && published.sequence < u64::MAX ==> republished(
            published,
            region,
        ).sequence == published.sequence + 1,
{
}

/// Whether an action ends the watch.
pub open spec fn ends(action: WatchAction) -> bool {
    ||| action == WatchAction::Stop
    ||| action == WatchAction::StopFlushing
    ||| action == WatchAction::StopReading
    ||| action == WatchAction::StopClosed
}

/// The watch ends where it is told to, and where the connection is of no more use; what
/// failed is said where writing or reading did. Nothing else ends it.
pub proof fn law_the_watch_ends_for_a_reason(writing: bool, event: WatchEvent)
    ensures
        ends(watched(writing, event)) <==> (match event {
            WatchEvent::Dispatched { worked, .. } => !worked,
            WatchEvent::Flushed(transfer) => transfer == Transfer::Failed,
            WatchEvent::Read(transfer) => transfer == Transfer::Failed,
            WatchEvent::WaitFailed => true,
            WatchEvent::Woken { readable, closed, stop } => stop || closed && !readable,
            _ => false,
        }),
        watched(writing, event) == WatchAction::StopFlushing <==> event == WatchEvent::Flushed(
            Transfer::Failed,
        ),
        watched(writing, event) == WatchAction::StopReading <==> event == WatchEvent::Read(
            Transfer::Failed,
        ),
        watched(writing, event) == WatchAction::StopClosed <==> (event matches WatchEvent::Woken {
            readable,
            closed,
            stop,
        } && closed && !readable && !stop),
{
}

/// Screens that changed are looked at again before anything else, what is left to read
/// is read, and the wait watches for room to write where something is left to write.
pub proof fn law_the_watch_misses_nothing(writing: bool, event: WatchEvent)
    ensures
        watched(writing, event) == WatchAction::Publish <==> event == (WatchEvent::Dispatched {
            worked: true,
            changed: true,
        }),
        watched(writing, event) == WatchAction::Read <==> (event matches WatchEvent::Woken {
            readable,
            stop,
            ..
        } && readable && !stop),
        watched(writing, event) matches WatchAction::Wait { writing: watching } ==> event
            == WatchEvent::Prepared(true) && watching == writing,
        event == WatchEvent::Prepared(true) ==> watched(writing, event) is Wait,
        watched(writing, event) matches WatchAction::Prepare { writing: left } ==> (left <==> event
            == WatchEvent::Flushed(Transfer::WouldBlock)),
        watched(writing, event) is Prepare <==> (event matches WatchEvent::Flushed(transfer)
            && transfer != Transfer::Failed),
        watched(writing, event) == WatchAction::Flush <==> event == WatchEvent::Published || event
            == (WatchEvent::Dispatched { worked: true, changed: false }),
{
}

} // verus!
