use backtrace::guard::lock;
use backtrace::guard::release;
use backtrace::guard::LockState;
use backtrace::metadata::FileAttr;
use backtrace::metadata::Metadata;
use backtrace::metadata::MetadataExt;
use backtrace::metadata::RawStat;
use backtrace::metadata::StatxTimestamp;

/// Acquiring the lock twice on the same thread does not deadlock: the
/// nested acquisition succeeds at once and only the outermost release
/// frees the lock.
#[test]
fn guard_reentrant_same_thread() {
    let mut state = LockState::new();
    let outer = lock(&mut state, 7);
    assert!(outer.outermost);
    let inner = lock(&mut state, 7);
    assert!(!inner.outermost);
    assert_eq!(state.depth, 2);
    assert_eq!(state.owner, Some(7));
    release(&mut state, inner);
    assert_eq!(state.owner, Some(7));
    release(&mut state, outer);
    assert_eq!(state.owner, None);
    assert_eq!(state.depth, 0);
}

/// While one thread holds the lock, the state is not available to another
/// thread; after the outermost release it is.
#[test]
fn guard_excludes_other_thread_until_release() {
    let mut state = LockState::new();
    let g = lock(&mut state, 1);
    assert_eq!(state.owner, Some(1));
    // another thread would have to wait: the state is held by thread 1
    assert!(state.owner != Some(2) && state.owner.is_some());
    release(&mut state, g);
    let g2 = lock(&mut state, 2);
    assert!(g2.outermost);
    assert_eq!(state.owner, Some(2));
    release(&mut state, g2);
}

fn sample_stat() -> RawStat {
    RawStat {
        st_dev: 2049,
        st_ino: 131586,
        st_mode: 0o100644,
        st_nlink: 1,
        st_uid: 1000,
        st_gid: 100,
        st_rdev: 0,
        st_size: 4096,
        st_atime: 1_700_000_000,
        st_atime_nsec: 12,
        st_mtime: 1_700_000_100,
        st_mtime_nsec: 34,
        st_ctime: 1_700_000_200,
        st_ctime_nsec: 56,
        st_blksize: 4096,
        st_blocks: 8,
    }
}

#[test]
fn metadata_returns_stat_fields() {
    let meta = Metadata {
        attr: FileAttr { stat: sample_stat(), stx_atime: None, stx_mtime: None, stx_ctime: None },
    };
    assert_eq!(meta.st_dev(), 2049);
    assert_eq!(meta.st_ino(), 131586);
    assert_eq!(meta.st_mode(), 0o100644);
    assert_eq!(meta.st_nlink(), 1);
    assert_eq!(meta.st_uid(), 1000);
    assert_eq!(meta.st_gid(), 100);
    assert_eq!(meta.st_rdev(), 0);
    assert_eq!(meta.st_size(), 4096);
    assert_eq!(meta.st_atime(), 1_700_000_000);
    assert_eq!(meta.st_atime_nsec(), 12);
    assert_eq!(meta.st_mtime(), 1_700_000_100);
    assert_eq!(meta.st_mtime_nsec(), 34);
    assert_eq!(meta.st_ctime(), 1_700_000_200);
    assert_eq!(meta.st_ctime_nsec(), 56);
    assert_eq!(meta.st_blksize(), 4096);
    assert_eq!(meta.st_blocks(), 8);
    assert_eq!(meta.as_raw_stat().st_ino, 131586);
}

#[test]
fn metadata_prefers_statx_seconds() {
    let meta = Metadata {
        attr: FileAttr {
            stat: sample_stat(),
            stx_atime: Some(StatxTimestamp { tv_sec: 9_000_000_001, tv_nsec: 1 }),
            stx_mtime: Some(StatxTimestamp { tv_sec: 9_000_000_002, tv_nsec: 2 }),
            stx_ctime: Some(StatxTimestamp { tv_sec: 9_000_000_003, tv_nsec: 3 }),
        },
    };
    assert_eq!(meta.st_atime(), 9_000_000_001);
    assert_eq!(meta.st_mtime(), 9_000_000_002);
    assert_eq!(meta.st_ctime(), 9_000_000_003);
    // the nanosecond accessors keep reading the plain stat fields
    assert_eq!(meta.st_atime_nsec(), 12);
}
