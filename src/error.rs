use vstd::prelude::*;
use crate::queue::Event;

verus! {

/// How many names are tried when creating a region before a name collision
/// is reported.
pub const MAX_NAME_ATTEMPTS: u32 = 5;

// Error numbers of the Linux system calls that the region and the
// primitives rely on.
pub const EPERM: i32 = 1;
pub const ENOMEM: i32 = 12;
pub const EACCES: i32 = 13;
pub const EEXIST: i32 = 17;
pub const ENFILE: i32 = 23;
pub const EMFILE: i32 = 24;
pub const ENOSPC: i32 = 28;
pub const ETIMEDOUT: i32 = 110;

/// The error kind of a failed region system call with error number `errno`.
pub open spec fn os_error_kind(errno: i32) -> IpcError {
    if errno == EEXIST {
        IpcError::AlreadyExists
    } else if errno == EACCES || errno == EPERM {
        IpcError::PermissionDenied
    } else if errno == ENOMEM || errno == ENFILE || errno == EMFILE || errno == ENOSPC {
        IpcError::ResourceExhausted
    } else {
        IpcError::Os(errno)
    }
}

/// Failures of the shared region and of the process-shared primitives.
#[derive(Copy, Clone, Debug, PartialEq, Eq, Structural)]
pub enum IpcError {
    /// No shared memory, mapping space or descriptor was left.
    ResourceExhausted,
    /// The chosen name is taken; a fresh name may succeed.
    AlreadyExists,
    /// Opening or mapping the region was denied.
    PermissionDenied,
    /// A mutex or condition variable operation returned this status.
    SyncError(i32),
    /// Any other system call failure, with its error number.
    Os(i32),
}

/// Whether creating a region should be tried again with a fresh name after
/// `err`, when `attempts` tries have been made: only a name collision is
/// retried, and only while fewer than `MAX_NAME_ATTEMPTS` tries were made.
pub fn retry_with_fresh_name(err: IpcError, attempts: u32) -> (r: bool)
    ensures
        r == (err == IpcError::AlreadyExists && attempts < MAX_NAME_ATTEMPTS),
{
    match err {
        IpcError::AlreadyExists => attempts < MAX_NAME_ATTEMPTS,
        _ => false,
    }
}

/// Classifies the error number of a failed open, size, map or unmap call:
/// a taken name, a denied access, exhausted memory or descriptors, or some
/// other failure.
pub fn os_error(errno: i32) -> (r: IpcError)
    ensures
        r == os_error_kind(errno),
{
    if errno == EEXIST {
        IpcError::AlreadyExists
    } else if errno == EACCES || errno == EPERM {
        IpcError::PermissionDenied
    } else if errno == ENOMEM || errno == ENFILE || errno == EMFILE || errno == ENOSPC {
        IpcError::ResourceExhausted
    } else {
        IpcError::Os(errno)
    }
}

/// Turns the status of a timed condition wait into the event it stands for:
/// zero is a wakeup before the deadline, `ETIMEDOUT` the deadline passing,
/// anything else a `SyncError` carrying it.
pub fn timed_wait_event(status: i32) -> (r: Result<Event, IpcError>)
    ensures
        status == 0 ==> r == Ok::<Event, IpcError>(Event::Woken),
        status == ETIMEDOUT ==> r == Ok::<Event, IpcError>(Event::TimedOut),
        status != 0 && status != ETIMEDOUT ==> r == Err::<Event, IpcError>(
            IpcError::SyncError(status),
        ),
{
    if status == 0 {
        Ok(Event::Woken)
    } else if status == ETIMEDOUT {
        Ok(Event::TimedOut)
    } else {
        Err(IpcError::SyncError(status))
    }
}

/// Turns the status of a mutex or condition variable call into a result:
/// zero is success, anything else a `SyncError` carrying it.
pub fn sync_status(status: i32) -> (r: Result<(), IpcError>)
    ensures
        status == 0 ==> r is Ok,
        status != 0 ==> r == Err::<(), IpcError>(IpcError::SyncError(status)),
{
    if status == 0 {
        Ok(())
    } else {
        Err(IpcError::SyncError(status))
    }
}

} // verus!
