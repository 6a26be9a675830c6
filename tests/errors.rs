use s3_namespace::error::{Errno, InodeError};

#[test]
fn errors_map_to_posix_codes() {
    let s = || String::from("x");
    let cases = vec![
        (InodeError::ClientError(anyhow::Error::msg("down")), libc::EIO, Errno::Io),
        (InodeError::FileDoesNotExist(s(), s()), libc::ENOENT, Errno::NoEntry),
        (InodeError::InodeDoesNotExist(4), libc::ENOENT, Errno::NoEntry),
        (InodeError::InvalidFileName(vec![0xff]), libc::EINVAL, Errno::InvalidArgument),
        (InodeError::NotADirectory(s()), libc::ENOTDIR, Errno::NotADirectory),
        (InodeError::IsDirectory(s()), libc::EISDIR, Errno::IsADirectory),
        (InodeError::FileAlreadyExists(s()), libc::EEXIST, Errno::Exists),
        (InodeError::InodeNotWritable(s()), libc::EPERM, Errno::PermissionDenied),
        (InodeError::InodeInvalidWriteStatus(s()), libc::EPERM, Errno::PermissionDenied),
        (InodeError::InodeAlreadyWriting(s()), libc::EPERM, Errno::PermissionDenied),
        (InodeError::InodeNotReadableWhileWriting(s()), libc::EPERM, Errno::PermissionDenied),
        (InodeError::InodeNotWritableWhileReading(s()), libc::EPERM, Errno::PermissionDenied),
        (InodeError::CannotRemoveRemoteDirectory(s()), libc::EPERM, Errno::PermissionDenied),
        (InodeError::DirectoryNotEmpty(s()), libc::ENOTEMPTY, Errno::NotEmpty),
        (InodeError::UnlinkNotPermittedWhileWriting(s()), libc::EPERM, Errno::PermissionDenied),
        (InodeError::CorruptedMetadata(s()), libc::EIO, Errno::Io),
        (InodeError::SetAttrNotPermittedOnRemoteInode(s()), libc::EPERM, Errno::PermissionDenied),
        (
            InodeError::StaleInode { remote_key: s(), old_inode: s(), new_inode: s() },
            libc::ESTALE,
            Errno::Stale,
        ),
    ];
    for (err, code, kind) in cases {
        assert_eq!(err.errno_kind(), kind);
        assert_eq!(err.to_errno(), code);
        assert_eq!(kind.code(), code);
    }
}

#[test]
fn stale_differs_from_missing() {
    let stale = InodeError::StaleInode { remote_key: "k".into(), old_inode: "2".into(), new_inode: "3".into() };
    let missing = InodeError::InodeDoesNotExist(2);
    let locked = InodeError::InodeNotWritable("2".into());
    assert_eq!(stale.to_errno(), libc::ESTALE);
    assert_eq!(missing.to_errno(), libc::ENOENT);
    assert_ne!(stale.to_errno(), missing.to_errno());
    assert_eq!(locked.to_errno(), libc::EPERM);
}
