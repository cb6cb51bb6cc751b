//! A process-wide re-entrant advisory lock, modelled as an explicit state.
//!
//! The lock serializes calls into non-thread-safe platform debug APIs: two
//! threads must never interleave their critical sections, while one thread
//! may nest acquisitions freely (trace, then resolve, then trace again)
//! without deadlocking against itself.
//!
//! Instead of a hidden global with an inert-guard illusion, the lock here is
//! an explicit [`LockState`] value with a per-thread re-entrancy counter.
//! The blocking acquisition of the underlying OS mutex happens outside the
//! library; [`lock`] is called once the state is available to the calling
//! thread and records the acquisition, and [`release`] undoes it.  The
//! contracts pin down the whole protocol: who may acquire, what the guard
//! witnesses, and when the lock becomes free again.

use vstd::prelude::*;

verus! {

/// The state of the re-entrant lock: which thread holds it, and how many
/// nested acquisitions that thread has outstanding.
pub struct LockState {
    /// The thread currently holding the lock, if any.
    pub owner: Option<u64>,
    /// The number of outstanding acquisitions by the owning thread.
    pub depth: u64,
}

/// A witness of one acquisition of the lock by one thread.
///
/// Dropping the guard on the floor would leave the lock held forever; every
/// guard must be handed back through [`release`].
pub struct LockGuard {
    /// The thread that acquired the lock.
    pub thread_id: u64,
    /// Whether this acquisition was the outermost one, i.e. the lock was
    /// free when it was taken.
    pub outermost: bool,
}

impl LockState {
    /// Well-formedness: the lock is held exactly when the re-entrancy
    /// counter is positive.
    pub open spec fn wf(&self) -> bool {
        self.owner is Some <==> self.depth >= 1
    }

    /// Whether the given thread may acquire the lock right now: the lock is
    /// free, or that thread already holds it.
    pub open spec fn available_to(&self, thread: u64) -> bool {
        self.owner is None || self.owner == Some(thread)
    }

    /// A fresh, unheld lock.
    pub fn new() -> (r: LockState)
        ensures
            r.wf(),
            r.owner is None,
            r.depth == 0,
    {
        LockState { owner: None, depth: 0 }
    }
}

/// Acquire the lock for `thread`.
///
/// The caller must have established that the lock is available to the
/// thread — either free, or already held by the same thread.  A first
/// acquisition marks the thread as owner; a nested one only bumps the
/// counter.  The returned guard records whether it was the outermost
/// acquisition.
pub fn lock(state: &mut LockState, thread: u64) -> (g: LockGuard)
    requires
        old(state).wf(),
        old(state).available_to(thread),
        old(state).depth < u64::MAX,
    ensures
        final(state).wf(),
        final(state).owner == Some(thread),
        final(state).depth == old(state).depth + 1,
        g.thread_id == thread,
        g.outermost <==> old(state).owner is None,
{
    let outermost = state.owner.is_none();
    state.owner = Some(thread);
    state.depth = state.depth + 1;
    LockGuard { thread_id: thread, outermost }
}

/// Release one acquisition of the lock.
///
/// Only the owning thread's guards can be handed back.  Inner releases
/// only decrement the counter; the outermost release frees the lock for
/// every thread.
pub fn release(state: &mut LockState, g: LockGuard)
    requires
        old(state).wf(),
        old(state).owner == Some(g.thread_id),
    ensures
        final(state).wf(),
        final(state).depth == old(state).depth - 1,
        old(state).depth > 1 ==> final(state).owner == Some(g.thread_id),
        old(state).depth == 1 ==> final(state).owner is None,
{
    if state.depth == 1 {
        state.owner = None;
    }
    state.depth = state.depth - 1;
}

/// Re-entrancy: a thread that already holds the lock can always acquire it
/// again — nested acquisition never self-deadlocks.
pub proof fn lemma_reentrant_acquire_enabled(s: LockState, t: u64)
    requires
        s.wf(),
        s.owner == Some(t),
    ensures
        s.available_to(t),
{
}

/// Mutual exclusion: while one thread holds the lock, no other thread can
/// acquire it, so critical sections of different threads never interleave.
pub proof fn lemma_mutual_exclusion(s: LockState, holder: u64, other: u64)
    requires
        s.wf(),
        s.owner == Some(holder),
        holder != other,
    ensures
        !s.available_to(other),
{
}

/// Hand-over: once the owner is cleared — which [`release`] ensures exactly
/// when the outermost acquisition is released — every thread may acquire
/// the lock.
pub proof fn lemma_free_lock_available_to_all(s: LockState)
    requires
        s.wf(),
        s.owner is None,
    ensures
        forall|t: u64| s.available_to(t),
{
}

} // verus!
