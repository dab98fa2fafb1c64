//! Which descriptors a child process starts with.

use vstd::prelude::*;

verus! {

/// The descriptor on which the authentication worker speaks.
pub const CHILD_SOCKET_FD: i32 = 3;

/// The descriptor on which a locker reports that it is ready.
pub const CHILD_READY_FD: i32 = 3;

/// The descriptor of the compositor connection that a locker inherits.
pub const CHILD_WAYLAND_FD: i32 = 4;

/// One change to the descriptors of a child, before it runs.
#[derive(Clone, Copy, Debug, PartialEq, Eq, Structural)]
pub enum FileAction {
    /// The second descriptor becomes a copy of the first.
    Duplicate(i32, i32),
    Close(i32),
    /// The descriptor reads from, or writes to, nowhere.
    OpenNull { descriptor: i32, writable: bool },
    /// This descriptor and all after it are closed.
    CloseFrom(i32),
}

/// What a descriptor refers to.
pub enum Origin {
    /// What one of the parent's descriptors refers to.
    Inherited(i32),
    Nowhere,
}

/// The descriptors after one change.
pub open spec fn changed(table: Map<i32, Origin>, action: FileAction) -> Map<i32, Origin> {
    match action {
        FileAction::Duplicate(from, to) => if table.contains_key(from) {
            table.insert(to, table[from])
        } else {
            table
        },
        FileAction::Close(descriptor) => table.remove(descriptor),
        FileAction::OpenNull { descriptor, .. } => table.insert(descriptor, Origin::Nowhere),
        FileAction::CloseFrom(first) => table.restrict(
            Set::new(|descriptor: i32| descriptor < first),
        ),
    }
}

/// The descriptors after the first `count` changes.
pub open spec fn after(table: Map<i32, Origin>, plan: Seq<FileAction>, count: int) -> Map<
    i32,
    Origin,
>
    decreases count,
{
    if count <= 0 {
        table
    } else {
        changed(after(table, plan, count - 1), plan[count - 1])
    }
}

/// The changes for the authentication worker: its socket is moved first, since
/// it may lie where the standard descriptors are opened.
pub open spec fn worker_plan(child_socket: i32) -> Seq<FileAction> {
    let moved = if child_socket != CHILD_SOCKET_FD {
        seq![
            FileAction::Duplicate(child_socket, CHILD_SOCKET_FD),
            FileAction::Close(child_socket),
        ]
    } else {
        seq![FileAction::Duplicate(child_socket, CHILD_SOCKET_FD)]
    };
    moved + seq![
        FileAction::OpenNull { descriptor: 0, writable: false },
        FileAction::OpenNull { descriptor: 1, writable: true },
        FileAction::OpenNull { descriptor: 2, writable: true },
        FileAction::CloseFrom(4),
    ]
}

/// The changes for the authentication worker.
pub fn worker_actions(child_socket: i32) -> (plan: Vec<FileAction>)
    ensures
        plan@ == worker_plan(child_socket),
{
    let mut plan: Vec<FileAction> = Vec::new();
    plan.push(FileAction::Duplicate(child_socket, CHILD_SOCKET_FD));
    if child_socket != CHILD_SOCKET_FD {
        plan.push(FileAction::Close(child_socket));
    }
    plan.push(FileAction::OpenNull { descriptor: 0, writable: false });
    plan.push(FileAction::OpenNull { descriptor: 1, writable: true });
    plan.push(FileAction::OpenNull { descriptor: 2, writable: true });
    plan.push(FileAction::CloseFrom(4));
    assert(plan@ =~= worker_plan(child_socket));
    plan
}

/// Whether a descriptor is free to be closed: it is none of the child's own.
pub open spec fn spare(descriptor: i32, has_wayland: bool) -> bool {
    descriptor != CHILD_READY_FD && (!has_wayland || descriptor != CHILD_WAYLAND_FD)
}

/// The changes for a locker that runs in the foreground.
pub open spec fn locker_plan(reader: i32, writer: i32, wayland: Option<i32>) -> Seq<FileAction> {
    let ready = seq![FileAction::Duplicate(writer, CHILD_READY_FD)];
    let compositor = match wayland {
        Some(wayland) => seq![FileAction::Duplicate(wayland, CHILD_WAYLAND_FD)],
        None => Seq::empty(),
    };
    let read_end = if spare(reader, wayland is Some) {
        seq![FileAction::Close(reader)]
    } else {
        Seq::empty()
    };
    let write_end = if spare(writer, wayland is Some) {
        seq![FileAction::Close(writer)]
    } else {
        Seq::empty()
    };
    ready + compositor + read_end + write_end + seq![
        FileAction::CloseFrom(
            if wayland is Some {
                5
            } else {
                4
            },
        ),
    ]
}

/// The changes for a locker that runs in the foreground.
pub fn locker_actions(reader: i32, writer: i32, wayland: Option<i32>) -> (plan: Vec<FileAction>)
    ensures
        plan@ == locker_plan(reader, writer, wayland),
{
    let mut plan: Vec<FileAction> = Vec::new();
    plan.push(FileAction::Duplicate(writer, CHILD_READY_FD));
    if let Some(wayland) = wayland {
        plan.push(FileAction::Duplicate(wayland, CHILD_WAYLAND_FD));
    }
    let reserved = wayland.is_some();
    if reader != CHILD_READY_FD && (!reserved || reader != CHILD_WAYLAND_FD) {
        plan.push(FileAction::Close(reader));
    }
    if writer != CHILD_READY_FD && (!reserved || writer != CHILD_WAYLAND_FD) {
        plan.push(FileAction::Close(writer));
    }
    plan.push(
        FileAction::CloseFrom(
            if reserved {
                5
            } else {
                4
            },
        ),
    );
    assert(plan@ =~= locker_plan(reader, writer, wayland));
    plan
}

/// What is to be done with a descriptor that was handed over for readiness.
#[derive(Clone, Copy, Debug, PartialEq, Eq, Structural)]
pub enum ReadyDescriptor {
    Usable,
    /// Its flags could not be read.
    Unreadable,
    /// Nothing can be written to it.
    NotWritable,
}

/// The access mode of a descriptor that is only written to.
pub const ACCESS_WRITE_ONLY: i32 = 1;

/// The access mode of a descriptor that is read and written.
pub const ACCESS_READ_WRITE: i32 = 2;

/// Judges a descriptor that was handed over for readiness: whether its flags could
/// be read, whether it only names a path, and its access mode.
pub fn judge_ready_descriptor(readable: bool, path_only: bool, access_mode: i32) -> (judgement:
    ReadyDescriptor)
    ensures
        judgement == if !readable {
            ReadyDescriptor::Unreadable
        } else if path_only || !(access_mode == ACCESS_WRITE_ONLY || access_mode
            == ACCESS_READ_WRITE) {
            ReadyDescriptor::NotWritable
        } else {
            ReadyDescriptor::Usable
        },
{
    if !readable {
        return ReadyDescriptor::Unreadable;
    }
    if path_only || (access_mode != ACCESS_WRITE_ONLY && access_mode != ACCESS_READ_WRITE) {
        return ReadyDescriptor::NotWritable;
    }
    ReadyDescriptor::Usable
}

/// The authentication worker starts with its socket and nothing else of its
/// parent: the standard descriptors lead nowhere, and no other is open.
pub proof fn law_workers_inherit_their_socket_only(table: Map<i32, Origin>, child_socket: i32)
    requires
        table.contains_key(child_socket),
        forall|descriptor: i32| table.contains_key(descriptor) ==> descriptor >= 0,
    ensures
        ({
            let plan = worker_plan(child_socket);
            let started = after(table, plan, plan.len() as int);
            &&& started.contains_key(CHILD_SOCKET_FD)
            &&& started[CHILD_SOCKET_FD] == table[child_socket]
            &&& forall|descriptor: i32|
                #![trigger started.contains_key(descriptor)]
                started.contains_key(descriptor) && descriptor != CHILD_SOCKET_FD ==> 0
                    <= descriptor <= 2 && started[descriptor] == Origin::Nowhere
        }),
{
    let plan = worker_plan(child_socket);
    reveal_with_fuel(after, 8);
    assert(plan.len() == if child_socket != CHILD_SOCKET_FD {
        6int
    } else {
        5int
    });
}

/// A locker starts with the descriptor on which it reports readiness, the
/// compositor's where it was handed one, and at most the standard ones besides.
pub proof fn law_lockers_inherit_what_they_need_only(
    table: Map<i32, Origin>,
    reader: i32,
    writer: i32,
    wayland: Option<i32>,
)
    requires
        table.contains_key(writer),
        wayland matches Some(wayland) ==> table.contains_key(wayland) && wayland
            != CHILD_READY_FD,
        forall|descriptor: i32| table.contains_key(descriptor) ==> descriptor >= 0,
    ensures
        ({
            let plan = locker_plan(reader, writer, wayland);
            let started = after(table, plan, plan.len() as int);
            &&& started.contains_key(CHILD_READY_FD)
            &&& started[CHILD_READY_FD] == table[writer]
            &&& wayland matches Some(wayland) ==> started.contains_key(CHILD_WAYLAND_FD)
                && started[CHILD_WAYLAND_FD] == table[wayland]
            &&& forall|descriptor: i32|
                #![trigger started.contains_key(descriptor)]
                started.contains_key(descriptor) ==> 0 <= descriptor <= if wayland is Some {
                    CHILD_WAYLAND_FD
                } else {
                    CHILD_READY_FD
                }
        }),
{
    let plan = locker_plan(reader, writer, wayland);
    reveal_with_fuel(after, 7);
    match wayland {
        Some(handed) => {
            assert(plan[0] == FileAction::Duplicate(writer, CHILD_READY_FD));
            assert(plan[1] == FileAction::Duplicate(handed, CHILD_WAYLAND_FD));
        },
        None => {
            assert(plan[0] == FileAction::Duplicate(writer, CHILD_READY_FD));
        },
    }
}

/// Of the standard descriptors that lead nowhere the first can be read and the other two
/// be written to.
pub proof fn law_standard_descriptors_can_be_used(child_socket: i32, index: int)
    requires
        0 <= index < worker_plan(child_socket).len(),
    ensures
        worker_plan(child_socket)[index] matches FileAction::OpenNull { descriptor, writable }
            ==> 0 <= descriptor <= 2 && (writable <==> descriptor > 0),
        worker_plan(child_socket).contains(FileAction::OpenNull { descriptor: 0, writable: false }),
        worker_plan(child_socket).contains(FileAction::OpenNull { descriptor: 1, writable: true }),
        worker_plan(child_socket).contains(FileAction::OpenNull { descriptor: 2, writable: true }),
{
    let plan = worker_plan(child_socket);
    let first = plan.len() - 4;
    assert(plan[first] == FileAction::OpenNull { descriptor: 0, writable: false });
    assert(plan[first + 1] == FileAction::OpenNull { descriptor: 1, writable: true });
    assert(plan[first + 2] == FileAction::OpenNull { descriptor: 2, writable: true });
}

/// Neither end of the readiness pipe stays open beside the descriptors a locker needs.
pub proof fn law_spare_ends_are_closed(reader: i32, writer: i32, wayland: Option<i32>)
    ensures
        ({
            let plan = locker_plan(reader, writer, wayland);
            let needed = |descriptor: i32| descriptor == 3 || (wayland is Some && descriptor == 4);
            &&& !needed(reader) ==> plan.contains(FileAction::Close(reader))
            &&& !needed(writer) ==> plan.contains(FileAction::Close(writer))
            &&& !plan.contains(FileAction::Close(3))
            &&& wayland is Some ==> !plan.contains(FileAction::Close(4))
            &&& plan[0] == FileAction::Duplicate(writer, 3)
            &&& plan.last() == FileAction::CloseFrom(
                if wayland is Some {
                    5
                } else {
                    4
                },
            )
        }),
{
    let plan = locker_plan(reader, writer, wayland);
    let at = if wayland is Some {
        2int
    } else {
        1
    };
    let spare_reader = spare(reader, wayland is Some);
    if spare_reader {
        assert(plan[at] == FileAction::Close(reader));
    }
    if spare(writer, wayland is Some) {
        assert(plan[at + if spare_reader {
            1int
        } else {
            0
        }] == FileAction::Close(writer));
    }
}

} // verus!
