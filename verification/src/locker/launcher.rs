//! Starting a locker in the foreground and waiting for it to be ready.

use vstd::prelude::*;

use super::auth::ChildStatus;
use super::descriptors::CHILD_READY_FD;
use crate::text::{joined, parse_number, write_number};

verus! {

/// What a locker says once the compositor confirmed the lock.
pub open spec fn ready_line() -> Seq<u8> {
    seq![0x52u8, 0x45u8, 0x41u8, 0x44u8, 0x59u8, 0x0au8]
}

/// The most bytes to read of a locker's answer: one more than it may say.
pub const READY_BYTES: usize = 7;

/// What a locker says once the compositor confirmed the lock.
pub fn ready_message() -> (line: Vec<u8>)
    ensures
        line@ == ready_line(),
{
    let mut line: Vec<u8> = Vec::new();
    line.push(0x52u8);
    line.push(0x45u8);
    line.push(0x41u8);
    line.push(0x44u8);
    line.push(0x59u8);
    line.push(0x0au8);
    assert(line@ =~= ready_line());
    line
}

/// Whether a message is the one a ready locker sends.
pub fn is_ready(message: &[u8]) -> (ready: bool)
    ensures
        ready == (message@ == ready_line()),
{
    let line = ready_message();
    if message.len() != line.len() {
        return false;
    }
    let mut index: usize = 0;
    while index < line.len()
        invariant
            line@ == ready_line(),
            message@.len() == line@.len(),
            index <= line@.len(),
            forall|seen: int| 0 <= seen < index ==> message@[seen] == line@[seen],
        decreases line@.len() - index,
    {
        if message[index] != line[index] {
            return false;
        }
        index += 1;
    }
    assert(message@ =~= line@);
    true
}

/// Why a locker could not be started.
#[derive(Debug)]
pub enum LaunchError {
    Spawn(String),
    ChildFailed(String),
    InvalidReady,
}

impl LaunchError {
    pub open spec fn text(self) -> Seq<char> {
        match self {
            LaunchError::Spawn(reason) => "could not start the foreground locker: "@ + reason@,
            LaunchError::ChildFailed(status) =>
                "foreground locker exited before compositor confirmation"@ + status@,
            LaunchError::InvalidReady => "foreground locker sent an invalid readiness message"@,
        }
    }

    /// The error as a sentence.
    pub fn message(&self) -> (text: String)
        ensures
            text@ == self.text(),
    {
        match self {
            LaunchError::Spawn(reason) => joined(
                "could not start the foreground locker: ",
                reason.as_str(),
            ),
            LaunchError::ChildFailed(status) => joined(
                "foreground locker exited before compositor confirmation",
                status.as_str(),
            ),
            LaunchError::InvalidReady =>
                "foreground locker sent an invalid readiness message".to_owned(),
        }
    }
}

/// What a locker's answer means.
#[derive(Clone, Copy, Debug, PartialEq, Eq, Structural)]
pub enum Readiness {
    Ready,
    Invalid,
    /// The locker closed without a word; its exit tells why.
    Closed,
}

/// Judges a locker's answer.
pub fn judge_ready(message: &[u8]) -> (readiness: Readiness)
    ensures
        readiness == if message@ == ready_line() {
            Readiness::Ready
        } else if message@.len() > 0 {
            Readiness::Invalid
        } else {
            Readiness::Closed
        },
{
    if is_ready(message) {
        Readiness::Ready
    } else if message.len() > 0 {
        Readiness::Invalid
    } else {
        Readiness::Closed
    }
}

/// A whole number in decimal, with its sign where it is negative.
pub open spec fn decimal(value: int) -> Seq<char> {
    if value < 0 {
        "-"@ + crate::text::written((-value) as nat, 10)
    } else {
        crate::text::written(value as nat, 10)
    }
}

fn write_decimal(value: i32) -> (text: String)
    ensures
        text@ == decimal(value as int),
{
    if value < 0 {
        let magnitude = write_number((-(value as i64)) as u64, 10);
        joined("-", magnitude.as_str())
    } else {
        write_number(value as u64, 10)
    }
}

/// How the end of a locker is put.
pub open spec fn ending(status: ChildStatus) -> Seq<char> {
    match status {
        ChildStatus::Exited(code) => " with status "@ + decimal(code as int),
        ChildStatus::Signaled(signal) => " after signal "@ + decimal(signal as int),
        ChildStatus::Other => Seq::empty(),
    }
}

/// How the end of a locker is put.
pub fn describe_ending(status: ChildStatus) -> (text: String)
    ensures
        text@ == ending(status),
{
    match status {
        ChildStatus::Exited(code) => joined(" with status ", write_decimal(code).as_str()),
        ChildStatus::Signaled(signal) => joined(" after signal ", write_decimal(signal).as_str()),
        ChildStatus::Other => String::new(),
    }
}

/// The descriptor a text names, if it is not negative.
pub open spec fn descriptor_named(text: Seq<char>) -> Option<int> {
    match crate::text::number(text, true) {
        Some(value) => if 0 <= value <= i32::MAX {
            Some(value)
        } else {
            None
        },
        None => None,
    }
}

/// The descriptor a text names, if it is not negative.
pub fn parse_descriptor(text: &str) -> (descriptor: Option<i32>)
    ensures
        (match descriptor {
            Some(descriptor) => Some(descriptor as int),
            None => None,
        }) == descriptor_named(text@),
{
    match parse_number(text, true, 0x7fff_ffff) {
        Some((negative, magnitude)) => if negative && magnitude > 0 {
            None
        } else {
            Some(magnitude as i32)
        },
        None => None,
    }
}

/// Whether the write end of the readiness pipe has to be moved: a descriptor that
/// is copied onto itself would be closed when the child runs.
pub fn must_move_writer(writer: i32) -> (must: bool)
    ensures
        must == (writer == CHILD_READY_FD),
{
    writer == CHILD_READY_FD
}

/// The name of the variable that hands a compositor connection over.
pub open spec fn wayland_socket_name() -> Seq<u8> {
    seq![
        0x57u8,
        0x41u8,
        0x59u8,
        0x4cu8,
        0x41u8,
        0x4eu8,
        0x44u8,
        0x5fu8,
        0x53u8,
        0x4fu8,
        0x43u8,
        0x4bu8,
        0x45u8,
        0x54u8,
    ]
}

fn wayland_socket_bytes() -> (name: Vec<u8>)
    ensures
        name@ == wayland_socket_name(),
{
    let name: Vec<u8> = vec![
        0x57u8,
        0x41u8,
        0x59u8,
        0x4cu8,
        0x41u8,
        0x4eu8,
        0x44u8,
        0x5fu8,
        0x53u8,
        0x4fu8,
        0x43u8,
        0x4bu8,
        0x45u8,
        0x54u8,
    ];
    assert(name@ =~= wayland_socket_name());
    name
}

/// One entry of an environment.
pub open spec fn entry(name: Seq<u8>, value: Seq<u8>) -> Seq<u8> {
    name + seq![0x3du8] + value
}

/// The first `count` variables as entries, but for the compositor connection.
pub open spec fn entries(variables: Seq<(Vec<u8>, Vec<u8>)>, count: int) -> Seq<Seq<u8>>
    decreases count,
{
    if count <= 0 {
        Seq::empty()
    } else {
        let before = entries(variables, count - 1);
        let (name, value) = variables[count - 1];
        if name@ == wayland_socket_name() {
            before
        } else {
            before.push(entry(name@, value@))
        }
    }
}

/// Whether one of the first `count` variables that are kept cannot be an entry:
/// its bytes would end early.
pub open spec fn unrepresentable(variables: Seq<(Vec<u8>, Vec<u8>)>, count: int) -> bool {
    exists|index: int|
        0 <= index < count && (#[trigger] variables[index]).0@ != wayland_socket_name() && entry(
            variables[index].0@,
            variables[index].1@,
        ).contains(0u8)
}

/// The environment of a locker.
pub open spec fn environment(variables: Seq<(Vec<u8>, Vec<u8>)>, has_wayland: bool) -> Seq<
    Seq<u8>,
> {
    let kept = entries(variables, variables.len() as int);
    if has_wayland {
        kept.push(entry(wayland_socket_name(), seq![0x34u8]))
    } else {
        kept
    }
}

/// What lists of bytes hold.
pub open spec fn held(lists: Seq<Vec<u8>>) -> Seq<Seq<u8>> {
    lists.map_values(|list: Vec<u8>| list@)
}

fn same_bytes(left: &Vec<u8>, right: &Vec<u8>) -> (same: bool)
    ensures
        same == (left@ == right@),
{
    if left.len() != right.len() {
        return false;
    }
    let mut index: usize = 0;
    while index < left.len()
        invariant
            left@.len() == right@.len(),
            index <= left@.len(),
            forall|seen: int| 0 <= seen < index ==> left@[seen] == right@[seen],
        decreases left@.len() - index,
    {
        if left[index] != right[index] {
            return false;
        }
        index += 1;
    }
    assert(left@ =~= right@);
    true
}

fn write_entry(name: &Vec<u8>, value: &Vec<u8>) -> (line: Vec<u8>)
    ensures
        line@ == entry(name@, value@),
{
    let mut line: Vec<u8> = Vec::new();
    line.extend_from_slice(name.as_slice());
    line.push(0x3du8);
    line.extend_from_slice(value.as_slice());
    assert(line@ =~= entry(name@, value@));
    line
}

fn has_zero(bytes: &Vec<u8>) -> (found: bool)
    ensures
        found == bytes@.contains(0u8),
{
    let mut index: usize = 0;
    while index < bytes.len()
        invariant
            index <= bytes@.len(),
            forall|seen: int| 0 <= seen < index ==> bytes@[seen] != 0,
        decreases bytes@.len() - index,
    {
        if bytes[index] == 0 {
            assert(bytes@[index as int] == 0u8);
            return true;
        }
        index += 1;
    }
    false
}

/// The environment of a locker: the parent's, with the compositor connection, if
/// there is one, on its fixed descriptor. There is none where a variable holds a
/// zero byte.
pub fn child_environment(variables: &Vec<(Vec<u8>, Vec<u8>)>, has_wayland_socket: bool) -> (lines:
    Option<Vec<Vec<u8>>>)
    ensures
        match lines {
            Some(lines) => !unrepresentable(variables@, variables@.len() as int) && held(lines@)
                == environment(variables@, has_wayland_socket),
            None => unrepresentable(variables@, variables@.len() as int),
        },
{
    let reserved = wayland_socket_bytes();
    let mut lines: Vec<Vec<u8>> = Vec::new();
    let mut index: usize = 0;
    assert(held(lines@) =~= entries(variables@, 0));
    while index < variables.len()
        invariant
            reserved@ == wayland_socket_name(),
            index <= variables@.len(),
            held(lines@) == entries(variables@, index as int),
            !unrepresentable(variables@, index as int),
        decreases variables@.len() - index,
    {
        if !same_bytes(&variables[index].0, &reserved) {
            let line = write_entry(&variables[index].0, &variables[index].1);
            if has_zero(&line) {
                assert(variables@[index as int].0@ != wayland_socket_name());
                return None;
            }
            let ghost before = lines@;
            lines.push(line);
            assert(held(lines@) =~= held(before).push(line@));
        }
        index += 1;
    }
    if has_wayland_socket {
        let mut number: Vec<u8> = Vec::new();
        number.push(0x34u8);
        assert(number@ =~= seq![0x34u8]);
        let ghost before = lines@;
        lines.push(write_entry(&reserved, &number));
        assert(held(lines@) =~= held(before).push(entry(wayland_socket_name(), seq![0x34u8])));
    }
    Some(lines)
}

// ---------------------------------------------------------------------------
// Laws
// ---------------------------------------------------------------------------

/// A ready locker says the word for it and ends the line; the compositor connection is
/// handed over under its own name.
pub proof fn law_fixed_words_are_spelled_out(index: int)
    ensures
        ready_line().len() == "READY\n"@.len(),
        0 <= index < ready_line().len() ==> ready_line()[index] as int == "READY\n"@[index] as int,
        wayland_socket_name().len() == "WAYLAND_SOCKET"@.len(),
        0 <= index < wayland_socket_name().len() ==> wayland_socket_name()[index] as int
            == "WAYLAND_SOCKET"@[index] as int,
{
    reveal_strlit("READY\n");
    reveal_strlit("WAYLAND_SOCKET");
}

/// A number in the account of how a locker ended is read back as it was, and the account
/// tells an exit from a signal.
pub proof fn law_endings_name_their_number(value: i32, other: i32)
    ensures
        crate::text::number(decimal(value as int), true) == Some(value as int),
        ending(ChildStatus::Exited(value)) != ending(ChildStatus::Signaled(other)),
        ending(ChildStatus::Exited(value)).skip(" with status "@.len() as int) == decimal(
            value as int,
        ),
        ending(ChildStatus::Signaled(value)).skip(" after signal "@.len() as int) == decimal(
            value as int,
        ),
        ending(ChildStatus::Other).len() == 0,
{
    reveal_strlit("-");
    reveal_strlit(" with status ");
    reveal_strlit(" after signal ");
    assert("-"@ =~= seq!['-']);
    crate::text::law_written_numbers_are_read_back(
        if value < 0 {
            (-value) as nat
        } else {
            value as nat
        },
    );
    assert(ending(ChildStatus::Exited(value))[1] == 'w');
    assert(ending(ChildStatus::Signaled(other))[1] == 'a');
    assert(ending(ChildStatus::Exited(value)).skip(" with status "@.len() as int) =~= decimal(
        value as int,
    ));
    assert(ending(ChildStatus::Signaled(value)).skip(" after signal "@.len() as int) =~= decimal(
        value as int,
    ));
}

/// A text names a descriptor where it is a number from zero to the largest of
/// thirty-two bits with a sign.
pub proof fn law_descriptors_are_numbers_from_zero_on(value: nat, text: Seq<char>)
    ensures
        value <= 0x7fff_ffff ==> descriptor_named(crate::text::written(value, 10)) == Some(
            value as int,
        ),
        value > 0x7fff_ffff ==> descriptor_named(crate::text::written(value, 10)) is None,
        value > 0 ==> descriptor_named(seq!['-'] + crate::text::written(value, 10)) is None,
        crate::text::number(text, true) is None ==> descriptor_named(text) is None,
{
    crate::text::law_written_numbers_are_read_back(value);
}

/// A locker's environment holds each of its parent's variables, in their order, as a name
/// and a value with an equals sign between them; only the compositor connection is left
/// out. The answer gives the variable each line comes from.
pub proof fn law_environments_are_handed_on(
    variables: Seq<(Vec<u8>, Vec<u8>)>,
    count: int,
) -> (sources: Seq<int>)
    requires
        0 <= count <= variables.len(),
    ensures
        sources.len() == entries(variables, count).len(),
        forall|line: int|
            0 <= line < sources.len() ==> {
                let source = #[trigger] sources[line];
                &&& 0 <= source < count
                &&& variables[source].0@ != wayland_socket_name()
                &&& entries(variables, count)[line] == variables[source].0@ + seq![0x3du8]
                    + variables[source].1@
            },
        forall|earlier: int, later: int|
            0 <= earlier < later < sources.len() ==> sources[earlier] < sources[later],
        forall|index: int|
            0 <= index < count && (#[trigger] variables[index]).0@ != wayland_socket_name()
                ==> sources.contains(index),
    decreases count,
{
    if count == 0 {
        Seq::empty()
    } else {
        let before = law_environments_are_handed_on(variables, count - 1);
        if variables[count - 1].0@ == wayland_socket_name() {
            before
        } else {
            let sources = before.push(count - 1);
            assert forall|index: int| 0 <= index < count && (
            #[trigger] variables[index]).0@ != wayland_socket_name() implies sources.contains(
                index,
            ) by {
                if index < count - 1 {
                    assert(before.contains(index));
                    let at = choose|at: int| 0 <= at < before.len() && before[at] == index;
                    assert(sources[at] == index);
                } else {
                    assert(sources[sources.len() - 1] == index);
                }
            }
            sources
        }
    }
}

/// A locker gets its compositor connection by its own descriptor, in decimal, after all
/// other variables, and none where it has no connection.
pub proof fn law_the_connection_is_handed_over_last(variables: Seq<(Vec<u8>, Vec<u8>)>)
    ensures
        environment(variables, false) == entries(variables, variables.len() as int),
        ({
            let lines = environment(variables, true);
            let last = lines[lines.len() - 1];
            let name = wayland_socket_name();
            &&& lines.drop_last() == entries(variables, variables.len() as int)
            &&& last.len() == name.len() + 2
            &&& last.take(name.len() as int) == name
            &&& last[name.len() as int] == 0x3d
            &&& last[name.len() as int + 1] as int == 0x30 + super::descriptors::CHILD_WAYLAND_FD
        }),
{
    let lines = environment(variables, true);
    let last = lines[lines.len() - 1];
    let name = wayland_socket_name();
    assert(lines.drop_last() =~= entries(variables, variables.len() as int));
    assert(last.take(name.len() as int) =~= name);
}

} // verus!
