//! The failures of namespace operations, and the POSIX codes they map to.
use vstd::prelude::*;
use crate::inode::InodeNo;

verus! {

#[verifier::external_type_specification]
#[verifier::external_body]
pub struct ExAnyhowError(anyhow::Error);

/// A description of the inode an error concerns.
pub type InodeErrorInfo = String;

/// Why a namespace operation failed.
#[derive(Debug)]
pub enum InodeError {
    /// The backing store failed.
    ClientError(anyhow::Error),
    /// No child of this name in the directory.
    FileDoesNotExist(String, InodeErrorInfo),
    /// No inode of this number.
    InodeDoesNotExist(InodeNo),
    /// The name is not valid UTF-8; its bytes.
    InvalidFileName(Vec<u8>),
    NotADirectory(InodeErrorInfo),
    IsDirectory(InodeErrorInfo),
    FileAlreadyExists(InodeErrorInfo),
    InodeNotWritable(InodeErrorInfo),
    InodeInvalidWriteStatus(InodeErrorInfo),
    InodeAlreadyWriting(InodeErrorInfo),
    InodeNotReadableWhileWriting(InodeErrorInfo),
    InodeNotWritableWhileReading(InodeErrorInfo),
    CannotRemoveRemoteDirectory(InodeErrorInfo),
    DirectoryNotEmpty(InodeErrorInfo),
    UnlinkNotPermittedWhileWriting(InodeErrorInfo),
    CorruptedMetadata(InodeErrorInfo),
    SetAttrNotPermittedOnRemoteInode(InodeErrorInfo),
    /// The inode no longer stands for the key it was made for.
    StaleInode { remote_key: String, old_inode: InodeErrorInfo, new_inode: InodeErrorInfo },
}

/// The POSIX error conditions that namespace failures map to.
#[derive(Clone, Copy, Debug, PartialEq, Eq, Structural)]
pub enum Errno {
    /// Input/output error.
    Io,
    /// No such entry.
    NoEntry,
    /// Invalid argument.
    InvalidArgument,
    /// Not a directory.
    NotADirectory,
    /// Is a directory.
    IsADirectory,
    /// Already exists.
    Exists,
    /// Operation not permitted.
    PermissionDenied,
    /// Directory not empty.
    NotEmpty,
    /// Stale file handle.
    Stale,
}

/// The condition each failure maps to.
pub open spec fn errno_of(e: InodeError) -> Errno {
    match e {
        InodeError::ClientError(_) => Errno::Io,
        InodeError::FileDoesNotExist(_, _) => Errno::NoEntry,
        InodeError::InodeDoesNotExist(_) => Errno::NoEntry,
        InodeError::InvalidFileName(_) => Errno::InvalidArgument,
        InodeError::NotADirectory(_) => Errno::NotADirectory,
        InodeError::IsDirectory(_) => Errno::IsADirectory,
        InodeError::FileAlreadyExists(_) => Errno::Exists,
        InodeError::InodeNotWritable(_) => Errno::PermissionDenied,
        InodeError::InodeInvalidWriteStatus(_) => Errno::PermissionDenied,
        InodeError::InodeAlreadyWriting(_) => Errno::PermissionDenied,
        InodeError::InodeNotReadableWhileWriting(_) => Errno::PermissionDenied,
        InodeError::InodeNotWritableWhileReading(_) => Errno::PermissionDenied,
        InodeError::CannotRemoveRemoteDirectory(_) => Errno::PermissionDenied,
        InodeError::DirectoryNotEmpty(_) => Errno::NotEmpty,
        InodeError::UnlinkNotPermittedWhileWriting(_) => Errno::PermissionDenied,
        InodeError::CorruptedMetadata(_) => Errno::Io,
        InodeError::SetAttrNotPermittedOnRemoteInode(_) => Errno::PermissionDenied,
        InodeError::StaleInode { .. } => Errno::Stale,
    }
}

impl InodeError {
    pub fn errno_kind(&self) -> (r: Errno)
        ensures
            r == errno_of(*self),
    {
        match self {
            InodeError::ClientError(_) => Errno::Io,
            InodeError::FileDoesNotExist(_, _) => Errno::NoEntry,
            InodeError::InodeDoesNotExist(_) => Errno::NoEntry,
            InodeError::InvalidFileName(_) => Errno::InvalidArgument,
            InodeError::NotADirectory(_) => Errno::NotADirectory,
            InodeError::IsDirectory(_) => Errno::IsADirectory,
            InodeError::FileAlreadyExists(_) => Errno::Exists,
            InodeError::InodeNotWritable(_) => Errno::PermissionDenied,
            InodeError::InodeInvalidWriteStatus(_) => Errno::PermissionDenied,
            InodeError::InodeAlreadyWriting(_) => Errno::PermissionDenied,
            InodeError::InodeNotReadableWhileWriting(_) => Errno::PermissionDenied,
            InodeError::InodeNotWritableWhileReading(_) => Errno::PermissionDenied,
            InodeError::CannotRemoveRemoteDirectory(_) => Errno::PermissionDenied,
            InodeError::DirectoryNotEmpty(_) => Errno::NotEmpty,
            InodeError::UnlinkNotPermittedWhileWriting(_) => Errno::PermissionDenied,
            InodeError::CorruptedMetadata(_) => Errno::Io,
            InodeError::SetAttrNotPermittedOnRemoteInode(_) => Errno::PermissionDenied,
            InodeError::StaleInode { .. } => Errno::Stale,
        }
    }

    /// The platform's error number for this failure: the number of its
    /// condition, which no other condition shares.
    pub fn to_errno(&self) -> (r: i32)
        ensures
            r == errno_number(errno_of(*self)),
            forall|e: Errno| e != errno_of(*self) ==> r != #[trigger] errno_number(e),
    {
        self.errno_kind().code()
    }
}

/// The number the platform's C library gives a condition. The values differ
/// between platforms; on each, the nine are pairwise distinct.
pub uninterp spec fn errno_number(e: Errno) -> i32;

impl Errno {
    /// The platform's number for this condition, as its C library defines it.
    pub fn code(&self) -> (r: i32)
        ensures
            r == errno_number(*self),
            forall|e: Errno| e != *self ==> r != #[trigger] errno_number(e),
    {
        match self {
            Errno::Io => eio(),
            Errno::NoEntry => enoent(),
            Errno::InvalidArgument => einval(),
            Errno::NotADirectory => enotdir(),
            Errno::IsADirectory => eisdir(),
            Errno::Exists => eexist(),
            Errno::PermissionDenied => eperm(),
            Errno::NotEmpty => enotempty(),
            Errno::Stale => estale(),
        }
    }
}

/// Relies on `libc::EIO`, the C library's number for an I/O error; distinct from
/// the other eight on every platform, its value differs between
/// them.
#[verifier::external_body]
fn eio() -> (r: i32)
    ensures
        r == errno_number(Errno::Io),
        forall|e: Errno| e != Errno::Io ==> r != #[trigger] errno_number(e),
{
    libc::EIO
}

/// Relies on `libc::ENOENT`, the C library's number for a missing entry; distinct from
/// the other eight on every platform, its value differs between
/// them.
#[verifier::external_body]
fn enoent() -> (r: i32)
    ensures
        r == errno_number(Errno::NoEntry),
        forall|e: Errno| e != Errno::NoEntry ==> r != #[trigger] errno_number(e),
{
    libc::ENOENT
}

/// Relies on `libc::EINVAL`, the C library's number for an invalid argument; distinct from
/// the other eight on every platform, its value differs between
/// them.
#[verifier::external_body]
fn einval() -> (r: i32)
    ensures
        r == errno_number(Errno::InvalidArgument),
        forall|e: Errno| e != Errno::InvalidArgument ==> r != #[trigger] errno_number(e),
{
    libc::EINVAL
}

/// Relies on `libc::ENOTDIR`, the C library's number for a path that is not a directory; distinct from
/// the other eight on every platform, its value differs between
/// them.
#[verifier::external_body]
fn enotdir() -> (r: i32)
    ensures
        r == errno_number(Errno::NotADirectory),
        forall|e: Errno| e != Errno::NotADirectory ==> r != #[trigger] errno_number(e),
{
    libc::ENOTDIR
}

/// Relies on `libc::EISDIR`, the C library's number for a path that is a directory; distinct from
/// the other eight on every platform, its value differs between
/// them.
#[verifier::external_body]
fn eisdir() -> (r: i32)
    ensures
        r == errno_number(Errno::IsADirectory),
        forall|e: Errno| e != Errno::IsADirectory ==> r != #[trigger] errno_number(e),
{
    libc::EISDIR
}

/// Relies on `libc::EEXIST`, the C library's number for an entry that already exists; distinct from
/// the other eight on every platform, its value differs between
/// them.
#[verifier::external_body]
fn eexist() -> (r: i32)
    ensures
        r == errno_number(Errno::Exists),
        forall|e: Errno| e != Errno::Exists ==> r != #[trigger] errno_number(e),
{
    libc::EEXIST
}

/// Relies on `libc::EPERM`, the C library's number for an operation not permitted; distinct from
/// the other eight on every platform, its value differs between
/// them.
#[verifier::external_body]
fn eperm() -> (r: i32)
    ensures
        r == errno_number(Errno::PermissionDenied),
        forall|e: Errno| e != Errno::PermissionDenied ==> r != #[trigger] errno_number(e),
{
    libc::EPERM
}

/// Relies on `libc::ENOTEMPTY`, the C library's number for a directory that is not empty; distinct from
/// the other eight on every platform, its value differs between
/// them.
#[verifier::external_body]
fn enotempty() -> (r: i32)
    ensures
        r == errno_number(Errno::NotEmpty),
        forall|e: Errno| e != Errno::NotEmpty ==> r != #[trigger] errno_number(e),
{
    libc::ENOTEMPTY
}

/// Relies on `libc::ESTALE`, the C library's number for a stale file handle; distinct from
/// the other eight on every platform, its value differs between
/// them.
#[verifier::external_body]
fn estale() -> (r: i32)
    ensures
        r == errno_number(Errno::Stale),
        forall|e: Errno| e != Errno::Stale ==> r != #[trigger] errno_number(e),
{
    libc::ESTALE
}

} // verus!
