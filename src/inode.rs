//! Inode identity and metadata snapshots.
//!
//! Times are plain values: instants on the caller's monotonic clock and
//! durations are nanoseconds, timestamps are seconds and nanoseconds since the
//! Unix epoch. The caller reads the clock and hands the instant in.
use vstd::prelude::*;

verus! {

/// Inode numbers.
pub type InodeNo = u64;

/// The root inode, its own parent.
pub const ROOT_INODE: InodeNo = 1;

/// Inodes are either files or directories.
#[derive(Clone, Copy, Debug, PartialEq, Eq, Structural)]
pub enum InodeKind {
    File,
    Directory,
}

pub open spec fn kind_str(k: InodeKind) -> Seq<char> {
    match k {
        InodeKind::File => seq!['f', 'i', 'l', 'e'],
        InodeKind::Directory => seq!['d', 'i', 'r', 'e', 'c', 't', 'o', 'r', 'y'],
    }
}

impl InodeKind {
    pub fn as_str(&self) -> (r: &'static str)
        ensures
            r@ == kind_str(*self),
    {
        match self {
            InodeKind::File => {
                proof {
                    reveal_strlit("file");
                }
                let r = "file";
                assert(r@ =~= kind_str(*self));
                r
            },
            InodeKind::Directory => {
                proof {
                    reveal_strlit("directory");
                }
                let r = "directory";
                assert(r@ =~= kind_str(*self));
                r
            },
        }
    }
}

/// A point in time, as seconds and nanoseconds since the Unix epoch.
#[derive(Clone, Copy, Debug, PartialEq, Eq, Structural)]
pub struct Timestamp {
    pub unix_seconds: i64,
    pub nanoseconds: u32,
}

impl Timestamp {
    /// The Unix epoch.
    pub fn epoch() -> (r: Timestamp)
        ensures
            r.unix_seconds == 0,
            r.nanoseconds == 0,
    {
        Timestamp { unix_seconds: 0, nanoseconds: 0 }
    }
}

/// The instant after which a snapshot must be refreshed.
#[derive(Clone, Copy, Debug, PartialEq, Eq, Structural)]
pub struct Expiry {
    pub deadline: u64,
}

/// `now + ttl`, held at the largest instant.
pub open spec fn saturating_sum(now: u64, ttl: u64) -> u64 {
    if now + ttl > u64::MAX {
        u64::MAX
    } else {
        (now + ttl) as u64
    }
}

impl Expiry {
    /// Expires `ttl` nanoseconds after `now`.
    pub fn from_now(now: u64, ttl: u64) -> (r: Expiry)
        ensures
            r.deadline == saturating_sum(now, ttl),
    {
        Expiry { deadline: now.saturating_add(ttl) }
    }

    pub fn is_expired(&self, now: u64) -> (r: bool)
        ensures
            r == (now >= self.deadline),
    {
        now >= self.deadline
    }

    /// Nanoseconds left before the deadline, none once it has passed.
    pub fn remaining_ttl(&self, now: u64) -> (r: u64)
        ensures
            r == if now >= self.deadline {
                0
            } else {
                self.deadline - now
            },
    {
        self.deadline.saturating_sub(now)
    }
}

/// The stat metadata for an inode: a snapshot, never changed once handed out.
#[derive(Clone, Debug)]
pub struct InodeStat {
    /// Instant this stat becomes invalid and needs to be refreshed.
    pub expiry: Expiry,
    /// Size in bytes.
    pub size: usize,
    /// Time of last content modification.
    pub mtime: Timestamp,
    /// Time of last metadata or content change.
    pub ctime: Timestamp,
    /// Time of last access.
    pub atime: Timestamp,
    /// Remote content identifier.
    pub etag: Option<String>,
    /// False for objects in a storage class that must be restored before reading.
    pub is_readable: bool,
}

impl InodeStat {
    pub fn is_valid(&self, now: u64) -> (r: bool)
        ensures
            r == (now < self.expiry.deadline),
    {
        !self.expiry.is_expired(now)
    }

    /// Makes the snapshot valid for `validity` nanoseconds from `now`; the rest
    /// stays as it was.
    pub fn set_validity(&mut self, now: u64, validity: u64)
        ensures
            final(self).expiry.deadline == saturating_sum(now, validity),
            final(self).size == old(self).size,
            final(self).mtime == old(self).mtime,
            final(self).ctime == old(self).ctime,
            final(self).atime == old(self).atime,
            final(self).etag == old(self).etag,
            final(self).is_readable == old(self).is_readable,
    {
        self.expiry = Expiry::from_now(now, validity);
    }
}

/// The result of a lookup: an inode handle and a snapshot of its metadata.
#[derive(Clone, Debug)]
pub struct LookedUp<I> {
    pub inode: I,
    pub stat: InodeStat,
}

impl<I> LookedUp<I> {
    /// How long the kernel may cache the entry, in nanoseconds from `now`.
    pub fn validity(&self, now: u64) -> (r: u64)
        ensures
            r == if now >= self.stat.expiry.deadline {
                0
            } else {
                self.stat.expiry.deadline - now
            },
    {
        self.stat.expiry.remaining_ttl(now)
    }
}

} // verus!
