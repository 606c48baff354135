//! The error statuses that the kernel hands back to userspace.
use vstd::prelude::*;

verus! {

/// An error status of the kernel's ABI.
#[derive(Clone, Copy, Debug, PartialEq, Eq, Structural)]
pub enum ErrorStatus {
    Generic,
    OutOfMemory,
    MMapError,
    AddressAlreadyInUse,
    InvalidSize,
    InvalidOffset,
    NotExecutable,
    Corrupted,
    NotSupported,
    ForceTerminated,
    Timeout,
    OperationNotSupported,
    UnknownResource,
    InvalidArgument,
    ConnectionClosed,
    ConnectionRefused,
    WouldBlock,
    AlreadyExists,
    NotBound,
    TypeMismatch,
    AddressNotFound,
    NetworkUnreachable,
    HostUnreachable,
    MissingPermissions,
    ProtocolUnreachable,
    InvalidCommand,
    ProtocolNotSupported,
}

} // verus!
