//! Counting semaphore with a FIFO queue of waiting threads.
//!
//! Threads are named by their thread id. An operation that needs the calling
//! thread takes its id; one that wakes a thread returns the id to wake, and
//! one that may block says so: the scheduler acts on that answer.
use std::collections::VecDeque;
use vstd::prelude::*;

verus! {

/// The state of a semaphore: its counter, the threads it has granted a unit
/// to (in the order of the grants), and the threads waiting for one.
pub struct SemaphoreInner {
    pub count: isize,
    pub allocated: Vec<usize>,
    pub wait_queue: VecDeque<usize>,
}

/// A counting semaphore.
pub struct Semaphore {
    pub inner: SemaphoreInner,
}

/// Collects the ids held in a queue, front first.
pub fn queue_to_vec(q: &VecDeque<usize>) -> (v: Vec<usize>)
    ensures
        v@ == q@,
{
    let mut v: Vec<usize> = Vec::new();
    let n: usize = q.len();
    for i in 0..n
        invariant
            n == q@.len(),
            v@ == q@.take(i as int),
    {
        v.push(q[i]);
        proof {
            assert(q@.take(i as int).push(q@[i as int]) =~= q@.take(i + 1));
        }
    }
    proof {
        assert(q@.take(n as int) =~= q@);
    }
    v
}

/// What `up` does: the counter goes up by one; while it is still not
/// positive, the first waiting thread (if any) leaves the queue and is
/// returned to be woken. The list of grants stays as it is.
pub open spec fn up_post(pre: &Semaphore, post: &Semaphore, woken: Option<usize>) -> bool {
    &&& post.inner.count == pre.inner.count + 1
    &&& post.inner.allocated@ == pre.inner.allocated@
    &&& if pre.inner.count + 1 <= 0 && pre.inner.wait_queue@.len() > 0 {
        &&& woken == Some(pre.inner.wait_queue@[0])
        &&& post.inner.wait_queue@ == pre.inner.wait_queue@.drop_first()
    } else {
        &&& woken is None
        &&& post.inner.wait_queue@ == pre.inner.wait_queue@
    }
}

/// What `down` by thread `tid` does: the counter goes down by one; when it
/// drops below zero the thread joins the back of the queue and blocks,
/// otherwise it is added to the grants.
pub open spec fn down_post(pre: &Semaphore, post: &Semaphore, tid: usize, blocked: bool) -> bool {
    &&& post.inner.count == pre.inner.count - 1
    &&& blocked == (pre.inner.count - 1 < 0)
    &&& blocked ==> post.inner.wait_queue@ == pre.inner.wait_queue@.push(tid)
        && post.inner.allocated@ == pre.inner.allocated@
    &&& !blocked ==> post.inner.allocated@ == pre.inner.allocated@.push(tid)
        && post.inner.wait_queue@ == pre.inner.wait_queue@
}

/// The balance between counter and queue survives an `up`: when as many
/// threads wait as the counter is below zero before it, so it is after.
pub proof fn lemma_up_keeps_balance(s0: &Semaphore, s1: &Semaphore, woken: Option<usize>)
    requires
        s0.wf(),
        up_post(s0, s1, woken),
    ensures
        s1.wf(),
{
}

/// The balance between counter and queue survives a `down`: when as many
/// threads wait as the counter is below zero before it, so it is after.
pub proof fn lemma_down_keeps_balance(s0: &Semaphore, s1: &Semaphore, tid: usize, blocked: bool)
    requires
        s0.wf(),
        down_post(s0, s1, tid, blocked),
    ensures
        s1.wf(),
{
}

/// A down followed by an up restores the counter and keeps a consistent
/// semaphore consistent. A thread that did not block is kept among the
/// grants and the up wakes nobody; a thread that blocked joined the back of
/// the queue, and the up wakes the thread at its front (the thread itself
/// when nobody waited before).
pub proof fn lemma_down_then_up(
    s0: &Semaphore,
    s1: &Semaphore,
    s2: &Semaphore,
    tid: usize,
    blocked: bool,
    woken: Option<usize>,
)
    requires
        s0.wf(),
        down_post(s0, s1, tid, blocked),
        up_post(s1, s2, woken),
    ensures
        s2.inner.count == s0.inner.count,
        s2.wf(),
        !blocked ==> woken is None && s2.inner.allocated@ == s0.inner.allocated@.push(tid)
            && s2.inner.wait_queue@ == s0.inner.wait_queue@,
        blocked ==> woken == Some(s0.inner.wait_queue@.push(tid)[0]) && s2.inner.wait_queue@
            == s0.inner.wait_queue@.push(tid).drop_first(),
        blocked && s0.inner.wait_queue@.len() == 0 ==> woken == Some(tid),
{
}

impl Semaphore {
    /// The balance between the counter and the queue: as many threads wait
    /// as the counter is below zero, and none wait while it is not.
    pub open spec fn wf(&self) -> bool {
        self.inner.wait_queue@.len() == (if self.inner.count < 0 {
            -self.inner.count
        } else {
            0
        })
    }

    /// A semaphore holding `res_count` units, with no holder and no waiter.
    /// The counter is `res_count` converted to `isize` as `as` converts.
    pub fn new(res_count: usize) -> (s: Self)
        ensures
            s.inner.count == res_count as isize,
            s.inner.allocated@ == Seq::<usize>::empty(),
            s.inner.wait_queue@ == Seq::<usize>::empty(),
            res_count <= isize::MAX ==> s.wf(),
    {
        Semaphore {
            inner: SemaphoreInner {
                count: res_count as isize,
                allocated: Vec::new(),
                wait_queue: VecDeque::new(),
            },
        }
    }

    /// Gives a unit back. When the counter is still not positive, the thread
    /// at the front of the queue (if any) leaves it and is returned, to be
    /// woken. The list of grants is left as it is.
    pub fn up(&mut self) -> (woken: Option<usize>)
        requires
            old(self).inner.count < isize::MAX,
        ensures
            up_post(old(self), final(self), woken),
            old(self).wf() ==> final(self).wf(),
    {
        self.inner.count = self.inner.count + 1;
        if self.inner.count <= 0 {
            self.inner.wait_queue.pop_front()
        } else {
            None
        }
    }

    /// Takes a unit for thread `tid`. When the counter drops below zero the
    /// thread joins the back of the queue and `true` says that it blocks;
    /// otherwise it is recorded as a holder and `false` is returned.
    pub fn down(&mut self, tid: usize) -> (blocked: bool)
        requires
            old(self).inner.count > isize::MIN,
        ensures
            down_post(old(self), final(self), tid, blocked),
            old(self).wf() ==> final(self).wf(),
    {
        self.inner.count = self.inner.count - 1;
        if self.inner.count < 0 {
            self.inner.wait_queue.push_back(tid);
            true
        } else {
            self.inner.allocated.push(tid);
            false
        }
    }

    /// The number of units that can be taken without blocking.
    pub fn get_available(&self) -> (r: isize)
        ensures
            r == (if self.inner.count < 0 {
                0
            } else {
                self.inner.count
            }),
    {
        if self.inner.count < 0 {
            0
        } else {
            self.inner.count
        }
    }

    /// The threads granted a unit, in the order of the grants; `None` when
    /// there are none.
    pub fn get_allocated(&self) -> (r: Option<Vec<usize>>)
        ensures
            r is Some <==> self.inner.allocated@.len() > 0,
            r is Some ==> r->0@ == self.inner.allocated@,
    {
        if self.inner.allocated.len() > 0 {
            let mut v: Vec<usize> = Vec::new();
            let n = self.inner.allocated.len();
            for i in 0..n
                invariant
                    n == self.inner.allocated@.len(),
                    v@ == self.inner.allocated@.take(i as int),
            {
                v.push(self.inner.allocated[i]);
                proof {
                    assert(self.inner.allocated@.take(i as int).push(self.inner.allocated@[i as int])
                        =~= self.inner.allocated@.take(i + 1));
                }
            }
            proof {
                assert(self.inner.allocated@.take(n as int) =~= self.inner.allocated@);
            }
            Some(v)
        } else {
            None
        }
    }

    /// The waiting threads, front of the queue first; `None` when none waits.
    pub fn get_need(&self) -> (r: Option<Vec<usize>>)
        ensures
            r is Some <==> self.inner.wait_queue@.len() > 0,
            r is Some ==> r->0@ == self.inner.wait_queue@,
    {
        let wait_task_count = self.inner.wait_queue.len();
        if wait_task_count == 0 {
            None
        } else {
            Some(queue_to_vec(&self.inner.wait_queue))
        }
    }
}

} // verus!
