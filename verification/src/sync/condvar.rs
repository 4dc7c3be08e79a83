//! Condition variable with a FIFO queue of waiting threads.
use crate::sync::mutex::{unlock_post, AnyMutex, Mutex};
use std::collections::VecDeque;
use vstd::prelude::*;

verus! {

/// A condition variable: the threads waiting on it, front first.
pub struct Condvar {
    pub wait_queue: VecDeque<usize>,
}

/// What `signal` does: the first waiting thread, if any, leaves the queue and
/// is returned to be woken.
pub open spec fn signal_post(pre: &Condvar, post: &Condvar, woken: Option<usize>) -> bool {
    if pre.wait_queue@.len() > 0 {
        &&& woken == Some(pre.wait_queue@[0])
        &&& post.wait_queue@ == pre.wait_queue@.drop_first()
    } else {
        &&& woken is None
        &&& post.wait_queue@ == pre.wait_queue@
    }
}

/// The threads that wait on a condition variable are signalled in the order
/// they started to wait: after a wait by `tid`, a signal wakes the first
/// waiter, which is `tid` itself when nobody waited before.
pub proof fn lemma_wait_then_signal(c0: &Condvar, c1: &Condvar, c2: &Condvar, tid: usize, woken: Option<usize>)
    requires
        c1.wait_queue@ == c0.wait_queue@.push(tid),
        signal_post(c1, c2, woken),
    ensures
        woken == Some(c0.wait_queue@.push(tid)[0]),
        c0.wait_queue@.len() == 0 ==> woken == Some(tid) && c2.wait_queue@.len() == 0,
        c2.wait_queue@ == c0.wait_queue@.push(tid).drop_first(),
{
}

impl Condvar {
    /// A condition variable nobody waits on.
    pub fn new() -> (c: Self)
        ensures
            c.wait_queue@ == Seq::<usize>::empty(),
    {
        Condvar { wait_queue: VecDeque::new() }
    }

    /// Wakes the first waiting thread, if any: it leaves the queue and is
    /// returned.
    pub fn signal(&mut self) -> (woken: Option<usize>)
        ensures
            signal_post(old(self), final(self), woken),
    {
        self.wait_queue.pop_front()
    }

    /// The part of a wait that comes before thread `tid` sleeps: it unlocks
    /// `mutex` (which may hand it to a waiter, returned to be woken) and joins
    /// the back of the queue. Once woken, the thread locks `mutex` again.
    pub fn wait(&mut self, mutex: &mut AnyMutex, tid: usize) -> (woken: Option<usize>)
        requires
            old(mutex).blocks() ==> old(mutex).is_locked(),
        ensures
            unlock_post(old(mutex), final(mutex), tid, woken),
            final(self).wait_queue@ == old(self).wait_queue@.push(tid),
            old(mutex).wf() ==> final(mutex).wf(),
    {
        let woken = mutex.unlock(tid);
        self.wait_queue.push_back(tid);
        woken
    }
}

} // verus!
