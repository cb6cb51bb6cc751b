//! Plain-value file metadata records.
//!
//! A metadata value holds the fields of the OS `stat` record as plain
//! integers, together with the optional higher-precision `statx` timestamps
//! that some configurations provide.  The accessor trait mirrors the
//! OS-specific metadata extension surface: each accessor returns exactly the
//! stored field, and the second-resolution timestamp accessors prefer the
//! `statx` value when one is present.
//!
//! Querying the filesystem happens outside the library; these records are
//! built from values handed in by the caller.

use vstd::prelude::*;

verus! {

/// The raw `stat` fields, as plain integers.
#[derive(Clone, Copy, Debug)]
pub struct RawStat {
    /// Device ID on which the file resides.
    pub st_dev: u64,
    /// Inode number.
    pub st_ino: u64,
    /// File type and mode bits.
    pub st_mode: u32,
    /// Number of hard links.
    pub st_nlink: u64,
    /// User ID of the owner.
    pub st_uid: u32,
    /// Group ID of the owner.
    pub st_gid: u32,
    /// Device ID this file represents, for special files.
    pub st_rdev: u64,
    /// Size in bytes.
    pub st_size: u64,
    /// Last access time, seconds since the Unix epoch.
    pub st_atime: i64,
    /// Nanosecond part of the last access time.
    pub st_atime_nsec: i64,
    /// Last modification time, seconds since the Unix epoch.
    pub st_mtime: i64,
    /// Nanosecond part of the last modification time.
    pub st_mtime_nsec: i64,
    /// Last status change time, seconds since the Unix epoch.
    pub st_ctime: i64,
    /// Nanosecond part of the last status change time.
    pub st_ctime_nsec: i64,
    /// Preferred block size for filesystem I/O.
    pub st_blksize: u64,
    /// Number of 512-byte blocks allocated.
    pub st_blocks: u64,
}

/// A timestamp from the extended `statx` interface.
#[derive(Clone, Copy, Debug)]
pub struct StatxTimestamp {
    /// Seconds since the Unix epoch.
    pub tv_sec: i64,
    /// Nanoseconds within the second.
    pub tv_nsec: u32,
}

/// A file's attributes: the raw `stat` record, plus the optional
/// higher-precision timestamps that `statx` provides on configurations
/// where the plain `stat` fields are too narrow.
#[derive(Clone, Copy, Debug)]
pub struct FileAttr {
    /// The raw `stat` record.
    pub stat: RawStat,
    /// Last access time from `statx`, when available.
    pub stx_atime: Option<StatxTimestamp>,
    /// Last modification time from `statx`, when available.
    pub stx_mtime: Option<StatxTimestamp>,
    /// Last status change time from `statx`, when available.
    pub stx_ctime: Option<StatxTimestamp>,
}

/// Metadata of one file, as captured by the caller.
#[derive(Clone, Copy, Debug)]
pub struct Metadata {
    /// The captured attributes.
    pub attr: FileAttr,
}

/// One thousand million: nanosecond fields count within one second.
pub const NSEC_PER_SEC: i64 = 1_000_000_000;

impl RawStat {
    /// Well-formedness: each nanosecond field counts the fraction of a
    /// second beyond the matching seconds field.
    pub open spec fn wf(&self) -> bool {
        &&& 0 <= self.st_atime_nsec < NSEC_PER_SEC
        &&& 0 <= self.st_mtime_nsec < NSEC_PER_SEC
        &&& 0 <= self.st_ctime_nsec < NSEC_PER_SEC
    }
}

impl StatxTimestamp {
    /// Well-formedness: the nanosecond part stays within one second.
    pub open spec fn wf(&self) -> bool {
        self.tv_nsec < NSEC_PER_SEC
    }
}

impl FileAttr {
    /// Well-formedness of the whole record.
    pub open spec fn wf(&self) -> bool {
        &&& self.stat.wf()
        &&& (self.stx_atime matches Some(t) ==> t.wf())
        &&& (self.stx_mtime matches Some(t) ==> t.wf())
        &&& (self.stx_ctime matches Some(t) ==> t.wf())
    }
}

/// The seconds value an access-time accessor must return: the `statx`
/// seconds when present, else the `stat` seconds.
pub open spec fn preferred_secs(stx: Option<StatxTimestamp>, stat_secs: i64) -> i64 {
    match stx {
        Some(t) => t.tv_sec,
        None => stat_secs,
    }
}

/// Accessors over file metadata.
///
/// Every accessor returns exactly the corresponding stored field; the
/// second-resolution timestamp accessors return the `statx` seconds when a
/// `statx` timestamp was captured, else the `stat` seconds.
pub trait MetadataExt {
    /// The attributes this metadata carries.
    spec fn attr_spec(&self) -> FileAttr;

    /// A reference to the raw `stat` record.
    fn as_raw_stat(&self) -> (r: &RawStat)
        ensures
            *r == self.attr_spec().stat,
    ;

    /// The device ID on which this file resides.
    fn st_dev(&self) -> (r: u64)
        ensures
            r == self.attr_spec().stat.st_dev,
    ;

    /// The inode number.
    fn st_ino(&self) -> (r: u64)
        ensures
            r == self.attr_spec().stat.st_ino,
    ;

    /// The file type and mode.
    fn st_mode(&self) -> (r: u32)
        ensures
            r == self.attr_spec().stat.st_mode,
    ;

    /// The number of hard links to the file.
    fn st_nlink(&self) -> (r: u64)
        ensures
            r == self.attr_spec().stat.st_nlink,
    ;

    /// The user ID of the file owner.
    fn st_uid(&self) -> (r: u32)
        ensures
            r == self.attr_spec().stat.st_uid,
    ;

    /// The group ID of the file owner.
    fn st_gid(&self) -> (r: u32)
        ensures
            r == self.attr_spec().stat.st_gid,
    ;

    /// The device ID this file represents.
    fn st_rdev(&self) -> (r: u64)
        ensures
            r == self.attr_spec().stat.st_rdev,
    ;

    /// The size of the file in bytes.
    fn st_size(&self) -> (r: u64)
        ensures
            r == self.attr_spec().stat.st_size,
    ;

    /// The last access time in seconds, preferring the `statx` value.
    fn st_atime(&self) -> (r: i64)
        ensures
            r == preferred_secs(self.attr_spec().stx_atime, self.attr_spec().stat.st_atime),
    ;

    /// The nanosecond part of the last access time; within one second of
    /// a well-formed record.
    fn st_atime_nsec(&self) -> (r: i64)
        ensures
            r == self.attr_spec().stat.st_atime_nsec,
            self.attr_spec().wf() ==> 0 <= r < NSEC_PER_SEC,
    ;

    /// The last modification time in seconds, preferring the `statx` value.
    fn st_mtime(&self) -> (r: i64)
        ensures
            r == preferred_secs(self.attr_spec().stx_mtime, self.attr_spec().stat.st_mtime),
    ;

    /// The nanosecond part of the last modification time; within one
    /// second of a well-formed record.
    fn st_mtime_nsec(&self) -> (r: i64)
        ensures
            r == self.attr_spec().stat.st_mtime_nsec,
            self.attr_spec().wf() ==> 0 <= r < NSEC_PER_SEC,
    ;

    /// The last status change time in seconds, preferring the `statx` value.
    fn st_ctime(&self) -> (r: i64)
        ensures
            r == preferred_secs(self.attr_spec().stx_ctime, self.attr_spec().stat.st_ctime),
    ;

    /// The nanosecond part of the last status change time; within one
    /// second of a well-formed record.
    fn st_ctime_nsec(&self) -> (r: i64)
        ensures
            r == self.attr_spec().stat.st_ctime_nsec,
            self.attr_spec().wf() ==> 0 <= r < NSEC_PER_SEC,
    ;

    /// The preferred block size for efficient filesystem I/O.
    fn st_blksize(&self) -> (r: u64)
        ensures
            r == self.attr_spec().stat.st_blksize,
    ;

    /// The number of 512-byte blocks allocated to the file.
    fn st_blocks(&self) -> (r: u64)
        ensures
            r == self.attr_spec().stat.st_blocks,
    ;
}

impl MetadataExt for Metadata {
    open spec fn attr_spec(&self) -> FileAttr {
        self.attr
    }

    fn as_raw_stat(&self) -> (r: &RawStat) {
        &self.attr.stat
    }

    fn st_dev(&self) -> (r: u64) {
        self.attr.stat.st_dev
    }

    fn st_ino(&self) -> (r: u64) {
        self.attr.stat.st_ino
    }

    fn st_mode(&self) -> (r: u32) {
        self.attr.stat.st_mode
    }

    fn st_nlink(&self) -> (r: u64) {
        self.attr.stat.st_nlink
    }

    fn st_uid(&self) -> (r: u32) {
        self.attr.stat.st_uid
    }

    fn st_gid(&self) -> (r: u32) {
        self.attr.stat.st_gid
    }

    fn st_rdev(&self) -> (r: u64) {
        self.attr.stat.st_rdev
    }

    fn st_size(&self) -> (r: u64) {
        self.attr.stat.st_size
    }

    fn st_atime(&self) -> (r: i64) {
        match &self.attr.stx_atime {
            Some(t) => t.tv_sec,
            None => self.attr.stat.st_atime,
        }
    }

    fn st_atime_nsec(&self) -> (r: i64) {
        self.attr.stat.st_atime_nsec
    }

    fn st_mtime(&self) -> (r: i64) {
        match &self.attr.stx_mtime {
            Some(t) => t.tv_sec,
            None => self.attr.stat.st_mtime,
        }
    }

    fn st_mtime_nsec(&self) -> (r: i64) {
        self.attr.stat.st_mtime_nsec
    }

    fn st_ctime(&self) -> (r: i64) {
        match &self.attr.stx_ctime {
            Some(t) => t.tv_sec,
            None => self.attr.stat.st_ctime,
        }
    }

    fn st_ctime_nsec(&self) -> (r: i64) {
        self.attr.stat.st_ctime_nsec
    }

    fn st_blksize(&self) -> (r: u64) {
        self.attr.stat.st_blksize
    }

    fn st_blocks(&self) -> (r: u64) {
        self.attr.stat.st_blocks
    }
}

} // verus!
