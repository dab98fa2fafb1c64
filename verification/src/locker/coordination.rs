//! How lockers of one compositor find each other: one owns the lock, the others
//! wait for it.

use vstd::prelude::*;

use super::launcher::{is_ready, parse_descriptor};
use crate::text::{joined, parse_u64, split_words, write_number};

verus! {

/// How many lockers may wait for the owner.
pub const MAX_WAITERS: usize = 64;

/// The pause before another attempt to reach the owner, in nanoseconds.
pub const RETRY_INTERVAL: u128 = 10_000_000;

/// Why lockers could not find each other.
#[derive(Debug)]
pub enum CoordinationError {
    RuntimeDirectory,
    WaylandConnection,
    Io(String),
    ExistingLockerFailed,
}

impl CoordinationError {
    pub open spec fn text(self) -> Seq<char> {
        match self {
            CoordinationError::RuntimeDirectory =>
                "XDG_RUNTIME_DIR must name an absolute private directory owned by the invoking user"@,
            CoordinationError::WaylandConnection =>
                "WAYLAND_SOCKET or WAYLAND_DISPLAY must identify a compositor connection"@,
            CoordinationError::Io(reason) =>
                "could not coordinate the compositor lock lifecycle: "@ + reason@,
            CoordinationError::ExistingLockerFailed =>
                "the existing locker exited before compositor confirmation"@,
        }
    }

    /// The error as a sentence.
    pub fn message(&self) -> (text: String)
        ensures
            text@ == self.text(),
    {
        match self {
            CoordinationError::RuntimeDirectory =>
                "XDG_RUNTIME_DIR must name an absolute private directory owned by the invoking user".to_owned(),
            CoordinationError::WaylandConnection =>
                "WAYLAND_SOCKET or WAYLAND_DISPLAY must identify a compositor connection".to_owned(),
            CoordinationError::Io(reason) => joined(
                "could not coordinate the compositor lock lifecycle: ",
                reason.as_str(),
            ),
            CoordinationError::ExistingLockerFailed =>
                "the existing locker exited before compositor confirmation".to_owned(),
        }
    }
}

// ---------------------------------------------------------------------------
// The compositor
// ---------------------------------------------------------------------------

/// The descriptor of an inherited compositor connection. A value that is no text
/// names none.
pub fn wayland_socket_fd(value: Option<&str>) -> (descriptor: Result<i32, CoordinationError>)
    ensures
        match value {
            Some(value) => match super::launcher::descriptor_named(value@) {
                Some(named) => descriptor matches Ok(descriptor) && descriptor == named,
                None => descriptor == Err::<i32, CoordinationError>(
                    CoordinationError::WaylandConnection,
                ),
            },
            None => descriptor == Err::<i32, CoordinationError>(
                CoordinationError::WaylandConnection,
            ),
        },
{
    match value {
        Some(value) => match parse_descriptor(value) {
            Some(descriptor) => Ok(descriptor),
            None => Err(CoordinationError::WaylandConnection),
        },
        None => Err(CoordinationError::WaylandConnection),
    }
}

/// A process identifier as an unsigned word.
pub open spec fn unsigned(pid: i32) -> nat {
    if pid < 0 {
        (pid + 0x1_0000_0000) as nat
    } else {
        pid as nat
    }
}

/// The name under which the lockers of one compositor process meet.
pub open spec fn stem(peer_pid: i32, peer_start_time: u64) -> Seq<char> {
    "genkan-lock-"@ + crate::text::written(unsigned(peer_pid), 16) + "-"@ + crate::text::written(
        peer_start_time as nat,
        16,
    )
}

/// The name under which the lockers of one compositor process meet.
pub fn coordination_stem(peer_pid: i32, peer_start_time: u64) -> (name: String)
    ensures
        name@ == stem(peer_pid, peer_start_time),
{
    let pid: u64 = if peer_pid < 0 {
        (peer_pid as i64 + 0x1_0000_0000) as u64
    } else {
        peer_pid as u64
    };
    let mut name = "genkan-lock-".to_owned();
    name.append(write_number(pid, 16).as_str());
    name.append("-");
    name.append(write_number(peer_start_time, 16).as_str());
    name
}

/// Every compositor process has a name of its own: two processes with one
/// identifier differ in when they started.
pub proof fn law_every_compositor_has_its_own_name(
    first_pid: i32,
    first_start: u64,
    second_pid: i32,
    second_start: u64,
)
    requires
        stem(first_pid, first_start) == stem(second_pid, second_start),
    ensures
        first_pid == second_pid,
        first_start == second_start,
{
    reveal_strlit("-");
    let prefix = "genkan-lock-"@;
    let a = crate::text::written(unsigned(first_pid), 16);
    let b = crate::text::written(first_start as nat, 16);
    let c = crate::text::written(unsigned(second_pid), 16);
    let d = crate::text::written(second_start as nat, 16);
    let left = stem(first_pid, first_start);
    let right = stem(second_pid, second_start);
    crate::text::lemma_written_has_no_dash(unsigned(first_pid), 16);
    crate::text::lemma_written_has_no_dash(unsigned(second_pid), 16);
    assert(left[(prefix.len() + a.len()) as int] == '-');
    assert(right[(prefix.len() + c.len()) as int] == '-');
    if a.len() < c.len() {
        assert(right[(prefix.len() + a.len()) as int] == c[a.len() as int]);
        assert(c.contains('-'));
    }
    if c.len() < a.len() {
        assert(left[(prefix.len() + c.len()) as int] == a[c.len() as int]);
        assert(a.contains('-'));
    }
    assert(a =~= c) by {
        assert forall|index: int| 0 <= index < a.len() implies a[index] == c[index] by {
            assert(left[prefix.len() + index] == a[index]);
            assert(right[prefix.len() + index] == c[index]);
        }
    }
    assert(b =~= d) by {
        assert(left.len() == prefix.len() + a.len() + 1 + b.len());
        assert(right.len() == prefix.len() + c.len() + 1 + d.len());
        assert forall|index: int| 0 <= index < b.len() implies b[index] == d[index] by {
            assert(left[prefix.len() + a.len() + 1 + index] == b[index]);
            assert(right[prefix.len() + c.len() + 1 + index] == d[index]);
        }
    }
    crate::text::lemma_written_is_injective(unsigned(first_pid), unsigned(second_pid), 16);
    crate::text::lemma_written_is_injective(first_start as nat, second_start as nat, 16);
}

/// What comes after the last closing bracket and space, which end the name of a
/// process in its record.
pub open spec fn after_name(record: Seq<char>) -> Option<Seq<char>>
    decreases record.len(),
{
    if record.len() == 0 {
        None
    } else {
        let before = record.drop_last();
        if record.last() == ' ' && before.len() > 0 && before.last() == ')' {
            Some(Seq::empty())
        } else {
            match after_name(before) {
                Some(rest) => Some(rest.push(record.last())),
                None => None,
            }
        }
    }
}

fn skip_name(record: &str) -> (rest: Option<String>)
    ensures
        (match rest {
            Some(rest) => Some(rest@),
            None => None,
        }) == after_name(record@),
{
    let mut rest = String::new();
    let mut found = false;
    let mut bracket = false;
    assert(record@.take(0) =~= Seq::<char>::empty());
    for character in iter: record.chars()
        invariant
            iter.seq() == record@,
            bracket == (iter.index() > 0 && record@[iter.index() - 1] == ')'),
            after_name(record@.take(iter.index() as int)) == if found {
                Some(rest@)
            } else {
                None
            },
    {
        let ghost prefix = record@.take(iter.index() + 1);
        assert(prefix.drop_last() =~= record@.take(iter.index() as int));
        if character == ' ' && bracket {
            rest = String::new();
            found = true;
            assert(rest@ =~= Seq::<char>::empty());
        } else if found {
            rest.push(character);
        }
        bracket = character == ')';
    }
    assert(record@.take(record@.len() as int) =~= record@);
    if found {
        Some(rest)
    } else {
        None
    }
}

/// When a process started, by its record: the twentieth field after its name.
pub open spec fn start_time(record: Seq<char>) -> Option<int> {
    match after_name(record) {
        None => None,
        Some(rest) => {
            let fields = crate::text::words(rest);
            if fields.len() < 20 {
                None
            } else {
                match crate::text::number(fields[19], false) {
                    Some(value) => if 0 <= value <= u64::MAX {
                        Some(value)
                    } else {
                        None
                    },
                    None => None,
                }
            }
        },
    }
}

/// When a process started, by its record.
pub fn parse_start_time(record: &str) -> (moment: Option<u64>)
    ensures
        (match moment {
            Some(moment) => Some(moment as int),
            None => None,
        }) == start_time(record@),
{
    match skip_name(record) {
        None => None,
        Some(rest) => {
            let fields = split_words(rest.as_str());
            assert(crate::text::said(fields@).len() == fields@.len());
            if fields.len() < 20 {
                return None;
            }
            assert(crate::text::said(fields@)[19] == fields@[19]@);
            parse_u64(fields[19].as_str())
        },
    }
}

/// The peer of a compositor connection, by its identifier and its record.
pub fn peer_identity(pid: i32, record: Option<&str>) -> (peer: Option<(i32, u64)>)
    ensures
        match peer {
            Some((found, moment)) => found == pid && pid > 0 && (record matches Some(record)
                && start_time(record@) == Some(moment as int)),
            None => pid <= 0 || (record matches Some(record) ==> start_time(record@) is None),
        },
{
    if pid <= 0 {
        return None;
    }
    match record {
        Some(record) => match parse_start_time(record) {
            Some(moment) => Some((pid, moment)),
            None => None,
        },
        None => None,
    }
}

/// What identifies a socket on disk.
#[derive(Clone, Copy, Debug, PartialEq, Eq, Structural)]
pub struct SocketMetadata {
    pub device: u64,
    pub inode: u64,
    pub changed_seconds: i64,
    pub changed_nanoseconds: i64,
}

/// Whether the socket that was connected to is the one that was looked at.
pub fn accept_connection(before: Option<SocketMetadata>, after: Option<SocketMetadata>) -> (accepted:
    bool)
    ensures
        accepted == (before is Some && before == after),
{
    match (before, after) {
        (Some(before), Some(after)) => before == after,
        _ => false,
    }
}

/// Accepts the directory in which the lockers meet: private, and the user's own.
pub fn accept_runtime_directory(
    absolute: bool,
    directory: bool,
    owned: bool,
    mode: u32,
) -> (result: Result<(), CoordinationError>)
    ensures
        result == if absolute && directory && owned && mode % 64 == 0 {
            Ok(())
        } else {
            Err(CoordinationError::RuntimeDirectory)
        },
{
    if absolute && directory && owned && mode % 64 == 0 {
        Ok(())
    } else {
        Err(CoordinationError::RuntimeDirectory)
    }
}

/// Where the compositor's socket is.
#[derive(Clone, Copy, Debug, PartialEq, Eq, Structural)]
pub enum DisplayPlace {
    /// At the path as it stands.
    Absolute,
    /// Below the runtime directory.
    BelowRuntime,
}

/// Decides where the compositor's socket is, by whether its path is absolute and
/// how many components it has.
pub fn place_display(path: Option<(bool, usize)>) -> (place: Result<
    DisplayPlace,
    CoordinationError,
>)
    ensures
        place == match path {
            Some((absolute, components)) => if absolute {
                Ok(DisplayPlace::Absolute)
            } else if components == 1 {
                Ok(DisplayPlace::BelowRuntime)
            } else {
                Err(CoordinationError::WaylandConnection)
            },
            None => Err(CoordinationError::WaylandConnection),
        },
{
    match path {
        Some((absolute, components)) => if absolute {
            Ok(DisplayPlace::Absolute)
        } else if components == 1 {
            Ok(DisplayPlace::BelowRuntime)
        } else {
            Err(CoordinationError::WaylandConnection)
        },
        None => Err(CoordinationError::WaylandConnection),
    }
}

// ---------------------------------------------------------------------------
// Entering
// ---------------------------------------------------------------------------

/// What a locker that enters waits for.
#[derive(Clone, Copy, Debug, PartialEq, Eq, Structural)]
pub enum Entering {
    /// The lease.
    Locking,
    /// The owner's socket.
    Connecting,
    /// The lease again, after the owner could not be reached.
    Relocking,
    /// The owner's word.
    Waiting,
}

/// What came of the last action.
#[derive(Debug)]
pub enum EnterEvent {
    /// Whether the lease could be taken.
    Locked(bool),
    /// The owner was reached.
    Connected,
    /// There is no socket, or nobody listens on it.
    Unreachable,
    /// What the owner said before it closed the connection.
    Said(Vec<u8>),
}

/// What to do next.
#[derive(Clone, Copy, Debug, PartialEq, Eq, Structural)]
pub enum EnterAction {
    /// Become the owner: replace the socket and listen on it.
    Own,
    Connect,
    /// Try to take the lease.
    Lock,
    /// Read what the owner says.
    Read,
    /// Pause, then connect again.
    Sleep,
    /// The owner holds a confirmed lock.
    Join,
    /// The owner is gone without one.
    Fail,
}

/// Whether an event answers the action that led to a state.
pub open spec fn fits(state: Entering, event: EnterEvent) -> bool {
    match event {
        EnterEvent::Locked(_) => state == Entering::Locking || state == Entering::Relocking,
        EnterEvent::Connected => state == Entering::Connecting,
        EnterEvent::Unreachable => state == Entering::Connecting,
        EnterEvent::Said(_) => state == Entering::Waiting,
    }
}

/// What an event leads to. A locker that saw another owner never takes its place:
/// if that lifecycle ends, this one fails with it.
pub open spec fn entered(state: Entering, event: EnterEvent) -> (Entering, EnterAction) {
    match event {
        EnterEvent::Locked(taken) => if state == Entering::Locking {
            if taken {
                (Entering::Locking, EnterAction::Own)
            } else {
                (Entering::Connecting, EnterAction::Connect)
            }
        } else if taken {
            (Entering::Relocking, EnterAction::Fail)
        } else {
            (Entering::Connecting, EnterAction::Sleep)
        },
        EnterEvent::Connected => (Entering::Waiting, EnterAction::Read),
        EnterEvent::Unreachable => (Entering::Relocking, EnterAction::Lock),
        EnterEvent::Said(message) => (
            Entering::Waiting,
            if message@ == super::launcher::ready_line() {
                EnterAction::Join
            } else {
                EnterAction::Fail
            },
        ),
    }
}

/// Takes what came of the last action, and says what to do next.
pub fn enter(state: Entering, event: EnterEvent) -> (next: (Entering, EnterAction))
    requires
        fits(state, event),
    ensures
        next == entered(state, event),
{
    match event {
        EnterEvent::Locked(taken) => if state == Entering::Locking {
            if taken {
                (Entering::Locking, EnterAction::Own)
            } else {
                (Entering::Connecting, EnterAction::Connect)
            }
        } else if taken {
            (Entering::Relocking, EnterAction::Fail)
        } else {
            (Entering::Connecting, EnterAction::Sleep)
        },
        EnterEvent::Connected => (Entering::Waiting, EnterAction::Read),
        EnterEvent::Unreachable => (Entering::Relocking, EnterAction::Lock),
        EnterEvent::Said(message) => (
            Entering::Waiting,
            if is_ready(message.as_slice()) {
                EnterAction::Join
            } else {
                EnterAction::Fail
            },
        ),
    }
}

/// A locker that saw another owner never becomes one, and only a locker that read
/// the owner's word joins.
pub proof fn law_an_observed_owner_is_never_replaced(state: Entering, event: EnterEvent)
    requires
        fits(state, event),
        state != Entering::Locking,
    ensures
        entered(state, event).1 != EnterAction::Own,
        entered(state, event).0 != Entering::Locking,
        entered(state, event).1 == EnterAction::Join ==> (event matches EnterEvent::Said(message)
            && message@ == super::launcher::ready_line()),
{
}

// ---------------------------------------------------------------------------
// Owning
// ---------------------------------------------------------------------------

/// The owner of a lock, as the others see it.
#[derive(Clone, Copy, Debug, PartialEq, Eq, Structural)]
pub struct Coordinator {
    /// How many lockers wait.
    pub waiters: usize,
    /// Whether the compositor confirmed the lock.
    pub confirmed: bool,
}

/// What the owner waited for.
#[derive(Clone, Copy, Debug, PartialEq, Eq, Structural)]
pub enum PollResult {
    Interrupted,
    Failed,
    /// Whether another locker came, the lock has news, and the owner is to stop.
    Woken { listener: bool, ready: bool, stop: bool },
}

/// What the owner does next.
#[derive(Clone, Copy, Debug, PartialEq, Eq, Structural)]
pub enum PollAction {
    Poll,
    Return,
    /// Read the news of the lock; then, where the flag is set, let lockers in.
    ReadReady { accept: bool },
    Accept,
}

/// What to do with a locker that came.
#[derive(Clone, Copy, Debug, PartialEq, Eq, Structural)]
pub enum Admission {
    /// Tell it at once that the lock is confirmed.
    Announce,
    /// Let it wait.
    Keep,
    /// Send it away.
    Refuse,
}

impl Coordinator {
    pub open spec fn wf(self) -> bool {
        self.waiters <= MAX_WAITERS && (self.confirmed ==> self.waiters == 0)
    }

    pub fn new() -> (coordinator: Self)
        ensures
            coordinator == (Coordinator { waiters: 0, confirmed: false }),
            coordinator.wf(),
    {
        Coordinator { waiters: 0, confirmed: false }
    }

    /// Decides what follows a wait.
    pub fn polled(&self, result: PollResult) -> (action: PollAction)
        ensures
            action == match result {
                PollResult::Interrupted => PollAction::Poll,
                PollResult::Failed => PollAction::Return,
                PollResult::Woken { listener, ready, stop } => if stop {
                    PollAction::Return
                } else if ready && !self.confirmed {
                    PollAction::ReadReady { accept: listener }
                } else if listener {
                    PollAction::Accept
                } else {
                    PollAction::Poll
                },
            },
    {
        match result {
            PollResult::Interrupted => PollAction::Poll,
            PollResult::Failed => PollAction::Return,
            PollResult::Woken { listener, ready, stop } => if stop {
                PollAction::Return
            } else if ready && !self.confirmed {
                PollAction::ReadReady { accept: listener }
            } else if listener {
                PollAction::Accept
            } else {
                PollAction::Poll
            },
        }
    }

    /// Takes the news of the lock. Where it is confirmed, the answer says how many
    /// lockers are to be told; otherwise the owner is to stop.
    pub fn confirm(&mut self, message: Option<Vec<u8>>) -> (released: Option<usize>)
        requires
            old(self).wf(),
        ensures
            final(self).wf(),
            if message matches Some(message) && message@ == super::launcher::ready_line() {
                released == Some(old(self).waiters) && *final(self) == (Coordinator {
                    waiters: 0,
                    confirmed: true,
                })
            } else {
                released is None && *final(self) == *old(self)
            },
    {
        match message {
            Some(message) => {
                if !is_ready(message.as_slice()) {
                    return None;
                }
                let released: usize = self.waiters;
                self.waiters = 0;
                self.confirmed = true;
                Some(released)
            },
            None => None,
        }
    }

    /// Decides what to do with a locker that came.
    pub fn accept(&mut self) -> (admission: Admission)
        requires
            old(self).wf(),
        ensures
            final(self).wf(),
            admission == if old(self).confirmed {
                Admission::Announce
            } else if old(self).waiters < MAX_WAITERS {
                Admission::Keep
            } else {
                Admission::Refuse
            },
            *final(self) == if admission == Admission::Keep {
                Coordinator { waiters: (old(self).waiters + 1) as usize, ..*old(self) }
            } else {
                *old(self)
            },
    {
        if self.confirmed {
            return Admission::Announce;
        }
        if self.waiters < MAX_WAITERS {
            self.waiters = self.waiters + 1;
            return Admission::Keep;
        }
        Admission::Refuse
    }
}

/// Whether a closing bracket and a space follow each other in a text.
pub open spec fn ends_a_name(text: Seq<char>, at: int) -> bool {
    0 <= at && at + 1 < text.len() && text[at] == ')' && text[at + 1] == ' '
}

/// What comes after a name is what follows the last closing bracket and space, whatever
/// the name holds; without them there is nothing.
pub proof fn law_names_end_at_the_last_bracket(
    record: Seq<char>,
    name: Seq<char>,
    rest: Seq<char>,
)
    ensures
        (forall|at: int| !#[trigger] ends_a_name(rest, at)) ==> after_name(
            name + seq![')', ' '] + rest,
        ) == Some(rest),
        (forall|at: int| !#[trigger] ends_a_name(record, at)) ==> after_name(record) is None,
{
    if forall|at: int| !#[trigger] ends_a_name(rest, at) {
        lemma_after_name(name, rest);
    }
    if forall|at: int| !#[trigger] ends_a_name(record, at) {
        lemma_no_name(record);
    }
}

proof fn lemma_after_name(name: Seq<char>, rest: Seq<char>)
    requires
        forall|at: int| !#[trigger] ends_a_name(rest, at),
    ensures
        after_name(name + seq![')', ' '] + rest) == Some(rest),
    decreases rest.len(),
{
    let record = name + seq![')', ' '] + rest;
    let before = record.drop_last();
    if rest.len() == 0 {
        assert(record.last() == ' ');
        assert(before.last() == ')');
        assert(rest =~= Seq::<char>::empty());
    } else {
        let shorter = rest.drop_last();
        assert(before =~= name + seq![')', ' '] + shorter);
        assert forall|at: int| !#[trigger] ends_a_name(shorter, at) by {
            assert(!ends_a_name(rest, at));
        }
        lemma_after_name(name, shorter);
        assert(record.last() == rest.last());
        if record.last() == ' ' && before.last() == ')' {
            if shorter.len() == 0 {
                assert(before.last() == ' ');
            } else {
                assert(before.last() == shorter.last());
                assert(ends_a_name(rest, rest.len() - 2));
            }
        }
        assert(shorter.push(rest.last()) =~= rest);
    }
}

proof fn lemma_no_name(record: Seq<char>)
    requires
        forall|at: int| !#[trigger] ends_a_name(record, at),
    ensures
        after_name(record) is None,
    decreases record.len(),
{
    if record.len() > 0 {
        let before = record.drop_last();
        assert forall|at: int| !#[trigger] ends_a_name(before, at) by {
            assert(!ends_a_name(record, at));
        }
        lemma_no_name(before);
        assert(!ends_a_name(record, record.len() - 2));
    }
}

/// A process started when the twentieth word after its name says, if that is a number of
/// sixty-four bits; a record with fewer words says nothing.
pub proof fn law_the_twentieth_word_says_when_it_started(
    name: Seq<char>,
    rest: Seq<char>,
    moment: nat,
)
    requires
        forall|at: int| !#[trigger] ends_a_name(rest, at),
    ensures
        ({
            let record = name + seq![')', ' '] + rest;
            let fields = crate::text::words(rest);
            &&& fields.len() < 20 ==> start_time(record) is None
            &&& fields.len() >= 20 && fields[19] == crate::text::written(moment, 10) && moment
                <= u64::MAX ==> start_time(record) == Some(moment as int)
            &&& fields.len() >= 20 && fields[19] == crate::text::written(moment, 10) && moment
                > u64::MAX ==> start_time(record) is None
            &&& fields.len() >= 20 && crate::text::number(fields[19], false) is None
                ==> start_time(record) is None
        }),
{
    lemma_after_name(name, rest);
    crate::text::law_written_numbers_are_read_back(moment);
}

/// The name of a compositor holds its process and its start, in hexadecimal, with a dash
/// between them; a negative identifier counts as the word it is.
pub proof fn law_names_hold_the_process_and_its_start(pid: i32, start: u64)
    ensures
        ({
            let process = crate::text::written(
                if pid < 0 {
                    (pid + 4_294_967_296) as nat
                } else {
                    pid as nat
                },
                16,
            );
            let moment = crate::text::written(start as nat, 16);
            let name = stem(pid, start);
            &&& name.len() == 12 + process.len() + 1 + moment.len()
            &&& name.subrange(12, 12 + process.len() as int) == process
            &&& name[12 + process.len() as int] == '-'
            &&& name.skip(13 + process.len() as int) == moment
            &&& name.take(12) == "genkan-lock-"@
        }),
{
    reveal_strlit("genkan-lock-");
    reveal_strlit("-");
    let process = crate::text::written(unsigned(pid), 16);
    let moment = crate::text::written(start as nat, 16);
    let name = stem(pid, start);
    assert(name.subrange(12, 12 + process.len() as int) =~= process);
    assert(name.skip(13 + process.len() as int) =~= moment);
    assert(name.take(12) =~= "genkan-lock-"@);
}

/// A locker owns the lock where it takes the lease at once. Otherwise it connects, asks
/// for the lease again where nobody answers, and waits where the lease is held; it
/// fails where the owner is gone, and joins it on its word.
pub proof fn law_lockers_enter_step_by_step(taken: bool, message: Vec<u8>)
    ensures
        entered(Entering::Locking, EnterEvent::Locked(taken)) == if taken {
            (Entering::Locking, EnterAction::Own)
        } else {
            (Entering::Connecting, EnterAction::Connect)
        },
        entered(Entering::Relocking, EnterEvent::Locked(taken)) == if taken {
            (Entering::Relocking, EnterAction::Fail)
        } else {
            (Entering::Connecting, EnterAction::Sleep)
        },
        entered(Entering::Connecting, EnterEvent::Connected) == (
            Entering::Waiting,
            EnterAction::Read,
        ),
        entered(Entering::Connecting, EnterEvent::Unreachable) == (
            Entering::Relocking,
            EnterAction::Lock,
        ),
        entered(Entering::Waiting, EnterEvent::Said(message)).1 == EnterAction::Join <==> message@
            == super::launcher::ready_line(),
        entered(Entering::Waiting, EnterEvent::Said(message)).1 == EnterAction::Fail <==> message@
            != super::launcher::ready_line(),
{
}

} // verus!
