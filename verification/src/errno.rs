//! What an operating system error means for an operation that may be tried again.
use nix::errno::Errno;
use vstd::prelude::*;

verus! {

/// The error numbers of the operating system, as `nix` names them.
#[verifier::external_type_specification]
pub struct ExErrno(nix::errno::Errno);

/// The call was interrupted by a signal.
pub open spec fn is_interrupted(errno: Errno) -> bool {
    errno == Errno::EINTR
}

/// The call would have had to wait. `EWOULDBLOCK` is the same error as `EAGAIN`.
pub open spec fn is_would_block(errno: Errno) -> bool {
    errno == Errno::EAGAIN
}

/// The connection is still being established.
pub open spec fn is_connect_pending(errno: Errno) -> bool {
    errno == Errno::EINPROGRESS || errno == Errno::EALREADY
}

/// Opening was refused for want of permission.
pub open spec fn is_permission_denied(errno: Errno) -> bool {
    errno == Errno::EACCES || errno == Errno::EPERM
}

/// Whether the call was interrupted by a signal.
pub fn errno_is_interrupted(errno: Errno) -> (r: bool)
    ensures
        r == is_interrupted(errno),
{
    match errno {
        Errno::EINTR => true,
        _ => false,
    }
}

/// Whether the call would have had to wait.
pub fn errno_is_would_block(errno: Errno) -> (r: bool)
    ensures
        r == is_would_block(errno),
{
    match errno {
        Errno::EAGAIN => true,
        _ => false,
    }
}

/// Whether the connection is still being established.
pub fn errno_is_connect_pending(errno: Errno) -> (r: bool)
    ensures
        r == is_connect_pending(errno),
{
    match errno {
        Errno::EINPROGRESS => true,
        Errno::EALREADY => true,
        _ => false,
    }
}

/// Whether opening was refused for want of permission.
pub fn errno_is_permission_denied(errno: Errno) -> (r: bool)
    ensures
        r == is_permission_denied(errno),
{
    match errno {
        Errno::EACCES => true,
        Errno::EPERM => true,
        _ => false,
    }
}

} // verus!
