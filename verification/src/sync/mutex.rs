//! Mutexes: one that makes a contending thread yield and try again, and one
//! that puts it to sleep in a FIFO queue.
//!
//! Threads are named by their thread id. `lock` and `unlock` take the id of
//! the calling thread, say whether it got the lock, must block or must yield,
//! and name the thread to wake, if any; the scheduler acts on that answer.
use crate::sync::semaphore::queue_to_vec;
use std::collections::VecDeque;
use vstd::prelude::*;

verus! {

/// What became of a request to lock.
#[derive(Debug, Clone, Copy, PartialEq, Eq, Structural)]
pub enum LockOutcome {
    /// The caller holds the mutex now.
    Acquired,
    /// The caller was queued and sleeps until an unlock hands it the mutex.
    Blocked,
    /// The mutex is held: the caller yields the processor and asks again.
    Busy,
}

/// A mutex, seen as: whether it is held, which thread it last recorded as
/// its holder, the threads queued for it, and whether contenders sleep.
pub trait Mutex: Sync + Send {
    spec fn is_locked(&self) -> bool;

    spec fn holder(&self) -> usize;

    spec fn waiters(&self) -> Seq<usize>;

    /// Whether a contender is queued and put to sleep (rather than told to
    /// yield and try again).
    spec fn blocks(&self) -> bool;

    /// Threads wait only for a held mutex, and only a sleeping mutex has any.
    spec fn wf(&self) -> bool;

    proof fn lemma_wf(&self)
        requires
            self.wf(),
        ensures
            self.waiters().len() > 0 ==> self.is_locked(),
            !self.blocks() ==> self.waiters().len() == 0,
    ;

    /// Lock the mutex for thread `tid`: a free mutex is taken and records
    /// `tid` as its holder; a held sleeping mutex queues `tid` at the back; a
    /// held yielding mutex is left as it was and the caller is told to try
    /// again.
    fn lock(&mut self, tid: usize) -> (r: LockOutcome)
        ensures
            final(self).blocks() == old(self).blocks(),
            final(self).is_locked(),
            !old(self).is_locked() ==> {
                &&& r is Acquired
                &&& final(self).holder() == tid
                &&& final(self).waiters() == old(self).waiters()
            },
            old(self).is_locked() && old(self).blocks() ==> {
                &&& r is Blocked
                &&& final(self).holder() == old(self).holder()
                &&& final(self).waiters() == old(self).waiters().push(tid)
            },
            old(self).is_locked() && !old(self).blocks() ==> {
                &&& r is Busy
                &&& final(self).holder() == old(self).holder()
                &&& final(self).waiters() == old(self).waiters()
            },
            old(self).wf() ==> final(self).wf(),
    ;

    /// Unlock the mutex, called by thread `tid`. When a thread waits, the
    /// first one leaves the queue and is returned to be woken, and the mutex
    /// stays held with `tid` recorded as its holder; otherwise it is released.
    /// A sleeping mutex must be held.
    fn unlock(&mut self, tid: usize) -> (woken: Option<usize>)
        requires
            old(self).blocks() ==> old(self).is_locked(),
        ensures
            final(self).blocks() == old(self).blocks(),
            old(self).waiters().len() > 0 ==> {
                &&& woken == Some(old(self).waiters()[0])
                &&& final(self).waiters() == old(self).waiters().drop_first()
                &&& final(self).is_locked()
                &&& final(self).holder() == tid
            },
            old(self).waiters().len() == 0 ==> {
                &&& woken is None
                &&& !final(self).is_locked()
                &&& final(self).holder() == old(self).holder()
                &&& final(self).waiters() == old(self).waiters()
            },
            old(self).wf() ==> final(self).wf(),
    ;

    /// 0 while the mutex is held, 1 while it is free.
    fn get_available(&self) -> (r: isize)
        ensures
            r == (if self.is_locked() {
                0isize
            } else {
                1isize
            }),
    ;

    /// The holder, while the mutex is held.
    fn get_allocated(&self) -> (r: Option<Vec<usize>>)
        ensures
            r is Some <==> self.is_locked(),
            r is Some ==> r->0@ == seq![self.holder()],
    ;

    /// The waiting threads, front of the queue first, while the mutex is held
    /// and some thread waits.
    fn get_need(&self) -> (r: Option<Vec<usize>>)
        ensures
            r is Some <==> self.is_locked() && self.waiters().len() > 0,
            r is Some ==> r->0@ == self.waiters(),
    ;
}

/// What a lock by thread `tid` does: a free mutex is taken and records `tid`
/// as its holder; a held sleeping mutex queues `tid` at the back; a held
/// yielding mutex is left as it was and the caller is told to try again.
pub open spec fn lock_post<M: Mutex + ?Sized>(pre: &M, post: &M, tid: usize, r: LockOutcome) -> bool {
    &&& post.blocks() == pre.blocks()
    &&& post.is_locked()
    &&& !pre.is_locked() ==> {
        &&& r is Acquired
        &&& post.holder() == tid
        &&& post.waiters() == pre.waiters()
    }
    &&& pre.is_locked() && pre.blocks() ==> {
        &&& r is Blocked
        &&& post.holder() == pre.holder()
        &&& post.waiters() == pre.waiters().push(tid)
    }
    &&& pre.is_locked() && !pre.blocks() ==> {
        &&& r is Busy
        &&& post.holder() == pre.holder()
        &&& post.waiters() == pre.waiters()
    }
}

/// What an unlock by thread `tid` does: when a thread waits, the first one
/// leaves the queue and is returned to be woken, and the mutex stays held with
/// `tid` recorded as its holder; otherwise the mutex is released.
pub open spec fn unlock_post<M: Mutex + ?Sized>(pre: &M, post: &M, tid: usize, woken: Option<usize>) -> bool {
    &&& post.blocks() == pre.blocks()
    &&& pre.waiters().len() > 0 ==> {
        &&& woken == Some(pre.waiters()[0])
        &&& post.waiters() == pre.waiters().drop_first()
        &&& post.is_locked()
        &&& post.holder() == tid
    }
    &&& pre.waiters().len() == 0 ==> {
        &&& woken is None
        &&& !post.is_locked()
        &&& post.holder() == pre.holder()
        &&& post.waiters() == pre.waiters()
    }
}

/// Locking a free, consistent mutex and unlocking it again gives it back
/// free, with nobody queued and nobody woken; in between, the locker was its
/// holder.
pub proof fn lemma_lock_then_unlock<M: Mutex + ?Sized>(
    m0: &M,
    m1: &M,
    m2: &M,
    tid: usize,
    r: LockOutcome,
    unlocker: usize,
    woken: Option<usize>,
)
    requires
        m0.wf(),
        !m0.is_locked(),
        lock_post(m0, m1, tid, r),
        unlock_post(m1, m2, unlocker, woken),
    ensures
        r is Acquired,
        m1.holder() == tid,
        woken is None,
        !m2.is_locked(),
        m2.waiters() == m0.waiters(),
        m2.waiters().len() == 0,
{
    m0.lemma_wf();
}

/// A thread that queues on a held sleeping mutex, behind the threads already
/// queued, is woken by the unlock that empties the queue ahead of it: the
/// next unlock wakes the first thread of the queue with it at the back, and
/// the mutex stays held.
pub proof fn lemma_queued_thread_is_woken_in_order<M: Mutex + ?Sized>(
    m0: &M,
    m1: &M,
    m2: &M,
    tid: usize,
    r: LockOutcome,
    unlocker: usize,
    woken: Option<usize>,
)
    requires
        m0.is_locked(),
        m0.blocks(),
        lock_post(m0, m1, tid, r),
        unlock_post(m1, m2, unlocker, woken),
    ensures
        r is Blocked,
        woken == Some(m0.waiters().push(tid)[0]),
        m0.waiters().len() == 0 ==> woken == Some(tid),
        m2.waiters() == m0.waiters().push(tid).drop_first(),
        m2.is_locked(),
        m2.holder() == unlocker,
{
}

/// No thread is ever left waiting on a free mutex: when none waits on it
/// while it is free before a lock, none does after.
pub proof fn lemma_lock_keeps_no_waiter_when_free<M: Mutex + ?Sized>(
    m0: &M,
    m1: &M,
    tid: usize,
    r: LockOutcome,
)
    requires
        m0.waiters().len() > 0 ==> m0.is_locked(),
        lock_post(m0, m1, tid, r),
    ensures
        m1.waiters().len() > 0 ==> m1.is_locked(),
{
}

/// No thread is ever left waiting on a free mutex: when none waits on it
/// while it is free before an unlock, none does after.
pub proof fn lemma_unlock_keeps_no_waiter_when_free<M: Mutex + ?Sized>(
    m0: &M,
    m1: &M,
    tid: usize,
    woken: Option<usize>,
)
    requires
        m0.waiters().len() > 0 ==> m0.is_locked(),
        unlock_post(m0, m1, tid, woken),
    ensures
        m1.waiters().len() > 0 ==> m1.is_locked(),
{
}

/// A mutex whose contenders yield and try again.
pub struct MutexSpin {
    allocated: usize,
    locked: bool,
}

impl MutexSpin {
    /// A free mutex.
    pub fn new() -> (m: Self)
        ensures
            !m.is_locked(),
            !m.blocks(),
            m.waiters() == Seq::<usize>::empty(),
            m.holder() == 0,
            m.wf(),
    {
        MutexSpin { allocated: 0, locked: false }
    }
}

impl Mutex for MutexSpin {
    closed spec fn is_locked(&self) -> bool {
        self.locked
    }

    closed spec fn holder(&self) -> usize {
        self.allocated
    }

    open spec fn waiters(&self) -> Seq<usize> {
        Seq::empty()
    }

    open spec fn blocks(&self) -> bool {
        false
    }

    open spec fn wf(&self) -> bool {
        true
    }

    proof fn lemma_wf(&self) {
    }

    fn lock(&mut self, tid: usize) -> (r: LockOutcome) {
        if self.locked {
            LockOutcome::Busy
        } else {
            self.locked = true;
            self.allocated = tid;
            LockOutcome::Acquired
        }
    }

    fn unlock(&mut self, tid: usize) -> (woken: Option<usize>) {
        self.locked = false;
        None
    }

    fn get_available(&self) -> (r: isize) {
        if self.locked {
            0
        } else {
            1
        }
    }

    fn get_allocated(&self) -> (r: Option<Vec<usize>>) {
        if self.locked {
            Some(vec![self.allocated])
        } else {
            None
        }
    }

    fn get_need(&self) -> (r: Option<Vec<usize>>) {
        None
    }
}

/// The state of a sleeping mutex.
pub struct MutexBlockingInner {
    locked: bool,
    allocated: usize,
    wait_queue: VecDeque<usize>,
}

/// A mutex whose contenders sleep in a FIFO queue; unlocking hands the mutex
/// to the first of them.
pub struct MutexBlocking {
    inner: MutexBlockingInner,
}

impl MutexBlocking {
    /// A free mutex.
    pub fn new() -> (m: Self)
        ensures
            !m.is_locked(),
            m.blocks(),
            m.waiters() == Seq::<usize>::empty(),
            m.holder() == 0,
            m.wf(),
    {
        MutexBlocking {
            inner: MutexBlockingInner { locked: false, allocated: 0, wait_queue: VecDeque::new() },
        }
    }
}

impl MutexBlocking {
    /// A sleeping mutex is consistent exactly when no thread waits for it
    /// while it is free.
    pub proof fn lemma_wf_meaning(&self)
        ensures
            self.wf() <==> (self.waiters().len() > 0 ==> self.is_locked()),
    {
    }
}

impl Mutex for MutexBlocking {
    closed spec fn is_locked(&self) -> bool {
        self.inner.locked
    }

    closed spec fn holder(&self) -> usize {
        self.inner.allocated
    }

    closed spec fn waiters(&self) -> Seq<usize> {
        self.inner.wait_queue@
    }

    open spec fn blocks(&self) -> bool {
        true
    }

    closed spec fn wf(&self) -> bool {
        self.inner.wait_queue@.len() > 0 ==> self.inner.locked
    }

    proof fn lemma_wf(&self) {
    }

    fn lock(&mut self, tid: usize) -> (r: LockOutcome) {
        if self.inner.locked {
            self.inner.wait_queue.push_back(tid);
            LockOutcome::Blocked
        } else {
            self.inner.allocated = tid;
            self.inner.locked = true;
            LockOutcome::Acquired
        }
    }

    fn unlock(&mut self, tid: usize) -> (woken: Option<usize>) {
        let waking = self.inner.wait_queue.pop_front();
        match waking {
            Some(t) => {
                self.inner.allocated = tid;
                Some(t)
            },
            None => {
                self.inner.locked = false;
                None
            },
        }
    }

    fn get_available(&self) -> (r: isize) {
        if self.inner.locked {
            0
        } else {
            1
        }
    }

    fn get_allocated(&self) -> (r: Option<Vec<usize>>) {
        if self.inner.locked {
            Some(vec![self.inner.allocated])
        } else {
            None
        }
    }

    fn get_need(&self) -> (r: Option<Vec<usize>>) {
        if self.inner.locked {
            let wait_task_count = self.inner.wait_queue.len();
            if wait_task_count == 0 {
                None
            } else {
                Some(queue_to_vec(&self.inner.wait_queue))
            }
        } else {
            None
        }
    }
}

/// A mutex of either kind.
pub enum AnyMutex {
    Spin(MutexSpin),
    Blocking(MutexBlocking),
}

impl Mutex for AnyMutex {
    open spec fn is_locked(&self) -> bool {
        match self {
            AnyMutex::Spin(m) => m.is_locked(),
            AnyMutex::Blocking(m) => m.is_locked(),
        }
    }

    open spec fn holder(&self) -> usize {
        match self {
            AnyMutex::Spin(m) => m.holder(),
            AnyMutex::Blocking(m) => m.holder(),
        }
    }

    open spec fn waiters(&self) -> Seq<usize> {
        match self {
            AnyMutex::Spin(m) => m.waiters(),
            AnyMutex::Blocking(m) => m.waiters(),
        }
    }

    open spec fn blocks(&self) -> bool {
        match self {
            AnyMutex::Spin(m) => m.blocks(),
            AnyMutex::Blocking(m) => m.blocks(),
        }
    }

    open spec fn wf(&self) -> bool {
        match self {
            AnyMutex::Spin(m) => m.wf(),
            AnyMutex::Blocking(m) => m.wf(),
        }
    }

    proof fn lemma_wf(&self) {
        match self {
            AnyMutex::Spin(m) => m.lemma_wf(),
            AnyMutex::Blocking(m) => m.lemma_wf(),
        }
    }

    fn lock(&mut self, tid: usize) -> (r: LockOutcome) {
        match self {
            AnyMutex::Spin(m) => m.lock(tid),
            AnyMutex::Blocking(m) => m.lock(tid),
        }
    }

    fn unlock(&mut self, tid: usize) -> (woken: Option<usize>) {
        match self {
            AnyMutex::Spin(m) => m.unlock(tid),
            AnyMutex::Blocking(m) => m.unlock(tid),
        }
    }

    fn get_available(&self) -> (r: isize) {
        match self {
            AnyMutex::Spin(m) => m.get_available(),
            AnyMutex::Blocking(m) => m.get_available(),
        }
    }

    fn get_allocated(&self) -> (r: Option<Vec<usize>>) {
        match self {
            AnyMutex::Spin(m) => m.get_allocated(),
            AnyMutex::Blocking(m) => m.get_allocated(),
        }
    }

    fn get_need(&self) -> (r: Option<Vec<usize>>) {
        match self {
            AnyMutex::Spin(m) => m.get_need(),
            AnyMutex::Blocking(m) => m.get_need(),
        }
    }
}

} // verus!
