//! The synchronisation system calls of a process.
//!
//! A process keeps its mutexes, semaphores and condition variables in lists
//! indexed by id, where a freed slot holds `None`. Each call takes the id of
//! the calling thread and returns the call's result together with what the
//! scheduler must do: which thread to wake, whether the caller blocks.
use crate::sync::condvar::{signal_post, Condvar};
use crate::sync::deadlock::{
    allocated_of, available_of, is_safe, lemma_occurrences_bounds, lemma_occurrences_member,
    lemma_occurrences_single, names_below, need_of, occurrences, request_is_safe, usage_names_below,
    usage_views,
    with_request, ResourceUsage, UsageView,
};
use crate::sync::mutex::{
    lock_post, unlock_post, AnyMutex, LockOutcome, Mutex, MutexBlocking, MutexSpin,
};
use crate::sync::semaphore::{down_post, up_post, Semaphore};
use vstd::prelude::*;

verus! {

/// What a lock or a wait returns when granting it could deadlock.
pub const DEADLOCK: isize = -0xdead;

/// The synchronisation state of a process.
pub struct ProcessSync {
    pub mutex_list: Vec<Option<AnyMutex>>,
    pub semaphore_list: Vec<Option<Semaphore>>,
    pub condvar_list: Vec<Option<Condvar>>,
    /// Whether locks and waits are refused when they could deadlock.
    pub detect_deadlock: bool,
    /// The number of thread slots of the process; thread ids are below it.
    /// The kernel keeps it equal to the length of the process's task list as
    /// threads are created.
    pub task_count: usize,
}

/// What the safety test reads of a mutex slot: one free unit while the mutex
/// is free, its holder while it is held, and its queue while it is held.
pub open spec fn mutex_usage_view(slot: Option<AnyMutex>) -> UsageView {
    match slot {
        Some(m) => UsageView {
            available: if m.is_locked() {
                0
            } else {
                1
            },
            allocated: if m.is_locked() {
                seq![m.holder()]
            } else {
                Seq::empty()
            },
            need: if m.is_locked() && m.waiters().len() > 0 {
                m.waiters()
            } else {
                Seq::empty()
            },
        },
        None => UsageView { available: 0, allocated: Seq::empty(), need: Seq::empty() },
    }
}

pub open spec fn mutex_usages(list: Seq<Option<AnyMutex>>) -> Seq<UsageView> {
    list.map_values(|slot: Option<AnyMutex>| mutex_usage_view(slot))
}

/// What the safety test reads of a semaphore slot: its free units, the
/// threads it granted units to, and its queue.
pub open spec fn semaphore_usage_view(slot: Option<Semaphore>) -> UsageView {
    match slot {
        Some(s) => UsageView {
            available: if s.inner.count < 0 {
                0
            } else {
                s.inner.count
            },
            allocated: s.inner.allocated@,
            need: s.inner.wait_queue@,
        },
        None => UsageView { available: 0, allocated: Seq::empty(), need: Seq::empty() },
    }
}

pub open spec fn semaphore_usages(list: Seq<Option<Semaphore>>) -> Seq<UsageView> {
    list.map_values(|slot: Option<Semaphore>| semaphore_usage_view(slot))
}

/// Granting thread `tid` one more unit of resource `id` leaves no order in
/// which all `n` threads can finish.
pub open spec fn request_deadlocks(us: Seq<UsageView>, n: int, tid: int, id: int) -> bool {
    !is_safe(available_of(us), allocated_of(us, n), with_request(need_of(us, n), tid, id))
}

/// The lowest free slot of `s`, or its length when no slot is free.
pub open spec fn first_free<T>(s: Seq<Option<T>>) -> int {
    if exists|i: int| 0 <= i < s.len() && s[i] is None {
        choose|i: int|
            0 <= i < s.len() && s[i] is None && forall|k: int| 0 <= k < i ==> s[k] is Some
    } else {
        s.len() as int
    }
}

/// Finds the lowest free slot.
fn find_free<T>(s: &Vec<Option<T>>) -> (r: Option<usize>)
    ensures
        r matches Some(i) ==> i < s.len() && i == first_free(s@),
        r is None ==> first_free(s@) == s.len(),
{
    let n = s.len();
    let mut i: usize = 0;
    while i < n
        invariant
            n == s.len(),
            0 <= i <= n,
            forall|k: int| 0 <= k < i ==> #[trigger] s@[k] is Some,
        decreases n - i,
    {
        if s[i].is_none() {
            proof {
                let c = choose|c: int|
                    0 <= c < s@.len() && s@[c] is None && forall|k: int| 0 <= k < c ==> s@[k] is Some;
                assert(0 <= i < s@.len() && s@[i as int] is None && forall|k: int|
                    0 <= k < i ==> s@[k] is Some);
                if c < i {
                    assert(s@[c] is Some);
                } else if c > i {
                    assert(s@[i as int] is Some);
                }
            }
            return Some(i);
        }
        i = i + 1;
    }
    None
}

/// Puts `item` in the lowest free slot of `s`, or at its end, and returns
/// where it went.
fn place<T>(s: &mut Vec<Option<T>>, item: T) -> (id: usize)
    ensures
        id == first_free(old(s)@),
        id <= old(s).len(),
        final(s)@[id as int] == Some(item),
        id < old(s).len() ==> final(s)@ == old(s)@.update(id as int, Some(item)),
        id == old(s).len() ==> final(s)@ == old(s)@.push(Some(item)),
{
    match find_free(s) {
        Some(i) => {
            s.set(i, Some(item));
            i
        },
        None => {
            s.push(Some(item));
            s.len() - 1
        },
    }
}

impl ProcessSync {
    /// A process with `task_count` thread slots, no synchronisation object
    /// and deadlock detection off.
    pub fn new(task_count: usize) -> (p: Self)
        ensures
            p.mutex_list@ == Seq::<Option<AnyMutex>>::empty(),
            p.semaphore_list@ == Seq::<Option<Semaphore>>::empty(),
            p.condvar_list@ == Seq::<Option<Condvar>>::empty(),
            !p.detect_deadlock,
            p.task_count == task_count,
    {
        ProcessSync {
            mutex_list: Vec::new(),
            semaphore_list: Vec::new(),
            condvar_list: Vec::new(),
            detect_deadlock: false,
            task_count,
        }
    }

    /// Whether every thread that a mutex records as holder or waiter (while
    /// held) is one of the process's threads, as the deadlock test needs.
    pub fn mutex_threads_below(&self) -> (ok: bool)
        ensures
            ok == names_below(mutex_usages(self.mutex_list@), self.task_count as int),
    {
        let us = mutex_usage(&self.mutex_list);
        usage_names_below(&us, self.task_count)
    }

    /// Whether every thread that a semaphore records as holder or waiter is
    /// one of the process's threads, as the deadlock test needs.
    pub fn semaphore_threads_below(&self) -> (ok: bool)
        ensures
            ok == names_below(semaphore_usages(self.semaphore_list@), self.task_count as int),
    {
        let us = semaphore_usage(&self.semaphore_list);
        usage_names_below(&us, self.task_count)
    }

    /// Every mutex and every semaphore of the process is consistent.
    pub open spec fn wf(&self) -> bool {
        &&& forall|i: int|
            0 <= i < self.mutex_list@.len() && #[trigger] self.mutex_list@[i] is Some
                ==> self.mutex_list@[i]->0.wf()
        &&& forall|i: int|
            0 <= i < self.semaphore_list@.len() && #[trigger] self.semaphore_list@[i] is Some
                ==> self.semaphore_list@[i]->0.wf()
    }
}

/// An empty list of thread ids.
fn no_threads() -> (v: Vec<usize>)
    ensures
        v@ == Seq::<usize>::empty(),
{
    Vec::new()
}

/// What each mutex slot reports to the safety test.
fn mutex_usage(list: &Vec<Option<AnyMutex>>) -> (us: Vec<ResourceUsage>)
    ensures
        usage_views(us@) == mutex_usages(list@),
{
    let n = list.len();
    let mut us: Vec<ResourceUsage> = Vec::new();
    let mut i: usize = 0;
    while i < n
        invariant
            n == list.len(),
            0 <= i <= n,
            us.len() == i,
            forall|k: int| 0 <= k < i ==> #[trigger] us@[k]@ == mutex_usage_view(list@[k]),
        decreases n - i,
    {
        let u = match &list[i] {
            Some(m) => {
                let available = m.get_available();
                let allocated = match m.get_allocated() {
                    Some(v) => v,
                    None => no_threads(),
                };
                let need = match m.get_need() {
                    Some(v) => v,
                    None => no_threads(),
                };
                ResourceUsage { available, allocated, need }
            },
            None => ResourceUsage { available: 0, allocated: no_threads(), need: no_threads() },
        };
        us.push(u);
        proof {
            assert(us@[i as int]@ =~= mutex_usage_view(list@[i as int]));
        }
        i = i + 1;
    }
    proof {
        assert(usage_views(us@) =~= mutex_usages(list@));
    }
    us
}

/// What each semaphore slot reports to the safety test.
fn semaphore_usage(list: &Vec<Option<Semaphore>>) -> (us: Vec<ResourceUsage>)
    ensures
        usage_views(us@) == semaphore_usages(list@),
{
    let n = list.len();
    let mut us: Vec<ResourceUsage> = Vec::new();
    let mut i: usize = 0;
    while i < n
        invariant
            n == list.len(),
            0 <= i <= n,
            us.len() == i,
            forall|k: int| 0 <= k < i ==> #[trigger] us@[k]@ == semaphore_usage_view(list@[k]),
        decreases n - i,
    {
        let u = match &list[i] {
            Some(s) => {
                let available = s.get_available();
                let allocated = match s.get_allocated() {
                    Some(v) => v,
                    None => no_threads(),
                };
                let need = match s.get_need() {
                    Some(v) => v,
                    None => no_threads(),
                };
                ResourceUsage { available, allocated, need }
            },
            None => ResourceUsage { available: 0, allocated: no_threads(), need: no_threads() },
        };
        us.push(u);
        proof {
            assert(us@[i as int]@ =~= semaphore_usage_view(list@[i as int]));
        }
        i = i + 1;
    }
    proof {
        assert(usage_views(us@) =~= semaphore_usages(list@));
    }
    us
}

/// Locks the mutex in slot `id` for thread `tid`, with no deadlock test: the
/// step that a thread told to yield repeats, and that a thread woken from a
/// condition variable takes to get its mutex back.
pub fn lock_slot(list: &mut Vec<Option<AnyMutex>>, id: usize, tid: usize) -> (r: LockOutcome)
    requires
        id < old(list).len(),
        old(list)@[id as int] is Some,
    ensures
        final(list)@ == old(list)@.update(id as int, final(list)@[id as int]),
        final(list)@[id as int] is Some,
        lock_post(&old(list)@[id as int]->0, &final(list)@[id as int]->0, tid, r),
        old(list)@[id as int]->0.wf() ==> final(list)@[id as int]->0.wf(),
{
    let mut slot: Option<AnyMutex> = None;
    std::mem::swap(&mut slot, &mut list[id]);
    let r = match &mut slot {
        Some(m) => m.lock(tid),
        None => LockOutcome::Busy,
    };
    list.set(id, slot);
    r
}

/// Unlocks the mutex in slot `id`, called by thread `tid`.
fn unlock_slot(list: &mut Vec<Option<AnyMutex>>, id: usize, tid: usize) -> (woken: Option<usize>)
    requires
        id < old(list).len(),
        old(list)@[id as int] is Some,
        old(list)@[id as int]->0.blocks() ==> old(list)@[id as int]->0.is_locked(),
    ensures
        final(list)@ == old(list)@.update(id as int, final(list)@[id as int]),
        final(list)@[id as int] is Some,
        unlock_post(&old(list)@[id as int]->0, &final(list)@[id as int]->0, tid, woken),
        old(list)@[id as int]->0.wf() ==> final(list)@[id as int]->0.wf(),
{
    let mut slot: Option<AnyMutex> = None;
    std::mem::swap(&mut slot, &mut list[id]);
    let woken = match &mut slot {
        Some(m) => m.unlock(tid),
        None => None,
    };
    list.set(id, slot);
    woken
}

/// Only the mutex list may differ between `a` and `b`.
pub open spec fn only_mutexes_changed(a: ProcessSync, b: ProcessSync) -> bool {
    &&& b.semaphore_list@ == a.semaphore_list@
    &&& b.condvar_list@ == a.condvar_list@
    &&& b.detect_deadlock == a.detect_deadlock
    &&& b.task_count == a.task_count
}

/// Only the semaphore list may differ between `a` and `b`.
pub open spec fn only_semaphores_changed(a: ProcessSync, b: ProcessSync) -> bool {
    &&& b.mutex_list@ == a.mutex_list@
    &&& b.condvar_list@ == a.condvar_list@
    &&& b.detect_deadlock == a.detect_deadlock
    &&& b.task_count == a.task_count
}

/// Only the condition variable list may differ between `a` and `b`.
pub open spec fn only_condvars_changed(a: ProcessSync, b: ProcessSync) -> bool {
    &&& b.mutex_list@ == a.mutex_list@
    &&& b.semaphore_list@ == a.semaphore_list@
    &&& b.detect_deadlock == a.detect_deadlock
    &&& b.task_count == a.task_count
}

/// `list` after a new item went to slot `id` = `first_free(pre)`: the slot is
/// overwritten, or the list grows by it.
pub open spec fn placed<T>(pre: Seq<Option<T>>, post: Seq<Option<T>>, id: int) -> bool {
    &&& id == first_free(pre)
    &&& id < pre.len() ==> post == pre.update(id, post[id])
    &&& id == pre.len() ==> post == pre.push(post[id])
    &&& post[id] is Some
}

/// A mutex nobody holds or waits for.
pub open spec fn fresh_mutex(m: AnyMutex, blocking: bool) -> bool {
    &&& !m.is_locked()
    &&& m.waiters() == Seq::<usize>::empty()
    &&& m.holder() == 0
    &&& m.blocks() == blocking
    &&& m.wf()
}

/// The time, in milliseconds, at which a thread that asks at `now_ms` to
/// sleep for `ms` milliseconds is woken.
pub fn sys_sleep(now_ms: usize, ms: usize) -> (expire_ms: usize)
    requires
        now_ms + ms <= usize::MAX,
    ensures
        expire_ms == now_ms + ms,
{
    now_ms + ms
}

/// Creates a mutex, sleeping if `blocking`, yielding otherwise, in the lowest
/// free slot, and returns its id.
pub fn sys_mutex_create(p: &mut ProcessSync, blocking: bool) -> (r: isize)
    ensures
        r == first_free(old(p).mutex_list@) as isize,
        placed(old(p).mutex_list@, final(p).mutex_list@, first_free(old(p).mutex_list@)),
        fresh_mutex(final(p).mutex_list@[first_free(old(p).mutex_list@)]->0, blocking),
        only_mutexes_changed(*old(p), *final(p)),
        old(p).wf() ==> final(p).wf(),
{
    let mutex = if !blocking {
        AnyMutex::Spin(MutexSpin::new())
    } else {
        AnyMutex::Blocking(MutexBlocking::new())
    };
    proof {
        assert(fresh_mutex(mutex, blocking));
    }
    let id = place(&mut p.mutex_list, mutex);
    proof {
        assert(p.mutex_list@[id as int] == Some(mutex));
    }
    id as isize
}

/// Locks mutex `mutex_id` for thread `tid`. With deadlock detection on, the
/// request is refused with [`DEADLOCK`], and nothing changes, when granting
/// it would leave no order in which all threads can finish; otherwise the
/// call returns 0 and what the lock said.
pub fn sys_mutex_lock(p: &mut ProcessSync, mutex_id: usize, tid: usize) -> (r: (isize, Option<LockOutcome>))
    requires
        mutex_id < old(p).mutex_list.len(),
        old(p).mutex_list@[mutex_id as int] is Some,
        old(p).detect_deadlock ==> tid < old(p).task_count && names_below(
            mutex_usages(old(p).mutex_list@),
            old(p).task_count as int,
        ),
    ensures
        ({
            let refused = old(p).detect_deadlock && request_deadlocks(
                mutex_usages(old(p).mutex_list@),
                old(p).task_count as int,
                tid as int,
                mutex_id as int,
            );
            &&& refused ==> r == (DEADLOCK, None::<LockOutcome>) && *final(p) == *old(p)
            &&& !refused ==> {
                &&& r.0 == 0
                &&& r.1 is Some
                &&& final(p).mutex_list@ == old(p).mutex_list@.update(
                    mutex_id as int,
                    final(p).mutex_list@[mutex_id as int],
                )
                &&& final(p).mutex_list@[mutex_id as int] is Some
                &&& lock_post(
                    &old(p).mutex_list@[mutex_id as int]->0,
                    &final(p).mutex_list@[mutex_id as int]->0,
                    tid,
                    r.1->0,
                )
                &&& only_mutexes_changed(*old(p), *final(p))
            }
        }),
        old(p).wf() ==> final(p).wf(),
{
    if p.detect_deadlock {
        let mutex_count = p.mutex_list.len();
        if mutex_count == 0 {
            return (DEADLOCK, None);
        }
        let us = mutex_usage(&p.mutex_list);
        proof {
            assert(us@.len() == usage_views(us@).len());
        }
        if !request_is_safe(&us, p.task_count, tid, mutex_id) {
            return (DEADLOCK, None);
        }
    }
    let r = lock_slot(&mut p.mutex_list, mutex_id, tid);
    (0, Some(r))
}

/// Unlocks mutex `mutex_id`, called by thread `tid`; returns 0 and the
/// thread to wake, if any. A sleeping mutex must be held.
pub fn sys_mutex_unlock(p: &mut ProcessSync, mutex_id: usize, tid: usize) -> (r: (isize, Option<usize>))
    requires
        mutex_id < old(p).mutex_list.len(),
        old(p).mutex_list@[mutex_id as int] is Some,
        old(p).mutex_list@[mutex_id as int]->0.blocks() ==> old(p).mutex_list@[mutex_id as int]->0.is_locked(),
    ensures
        r.0 == 0,
        final(p).mutex_list@ == old(p).mutex_list@.update(
            mutex_id as int,
            final(p).mutex_list@[mutex_id as int],
        ),
        final(p).mutex_list@[mutex_id as int] is Some,
        unlock_post(
            &old(p).mutex_list@[mutex_id as int]->0,
            &final(p).mutex_list@[mutex_id as int]->0,
            tid,
            r.1,
        ),
        only_mutexes_changed(*old(p), *final(p)),
        old(p).wf() ==> final(p).wf(),
{
    let woken = unlock_slot(&mut p.mutex_list, mutex_id, tid);
    (0, woken)
}

/// Gives a unit back to the semaphore in slot `id`.
fn up_slot(list: &mut Vec<Option<Semaphore>>, id: usize) -> (woken: Option<usize>)
    requires
        id < old(list).len(),
        old(list)@[id as int] is Some,
        old(list)@[id as int]->0.inner.count < isize::MAX,
    ensures
        final(list)@ == old(list)@.update(id as int, final(list)@[id as int]),
        final(list)@[id as int] is Some,
        up_post(&old(list)@[id as int]->0, &final(list)@[id as int]->0, woken),
        old(list)@[id as int]->0.wf() ==> final(list)@[id as int]->0.wf(),
{
    let mut slot: Option<Semaphore> = None;
    std::mem::swap(&mut slot, &mut list[id]);
    let woken = match &mut slot {
        Some(sem) => sem.up(),
        None => None,
    };
    list.set(id, slot);
    woken
}

/// Takes a unit of the semaphore in slot `id` for thread `tid`.
fn down_slot(list: &mut Vec<Option<Semaphore>>, id: usize, tid: usize) -> (blocked: bool)
    requires
        id < old(list).len(),
        old(list)@[id as int] is Some,
        old(list)@[id as int]->0.inner.count > isize::MIN,
    ensures
        final(list)@ == old(list)@.update(id as int, final(list)@[id as int]),
        final(list)@[id as int] is Some,
        down_post(&old(list)@[id as int]->0, &final(list)@[id as int]->0, tid, blocked),
        old(list)@[id as int]->0.wf() ==> final(list)@[id as int]->0.wf(),
{
    let mut slot: Option<Semaphore> = None;
    std::mem::swap(&mut slot, &mut list[id]);
    let blocked = match &mut slot {
        Some(sem) => sem.down(tid),
        None => false,
    };
    list.set(id, slot);
    blocked
}

/// What creating a semaphore of `res_count` units does: it goes to the
/// lowest free slot of the semaphore list, whose index is returned, and
/// nothing else changes.
pub open spec fn semaphore_create_post(pre: ProcessSync, post: ProcessSync, res_count: usize, r: isize) -> bool {
    let id = first_free(pre.semaphore_list@);
    let s = post.semaphore_list@[id]->0;
    &&& r == id as isize
    &&& placed(pre.semaphore_list@, post.semaphore_list@, id)
    &&& s.inner.count == res_count as isize
    &&& s.inner.allocated@ == Seq::<usize>::empty()
    &&& s.inner.wait_queue@ == Seq::<usize>::empty()
    &&& only_semaphores_changed(pre, post)
}

/// What `first_free` is: every slot before it is taken, and it is a free
/// slot or the end of the list.
pub proof fn lemma_first_free<T>(s: Seq<Option<T>>)
    ensures
        0 <= first_free(s) <= s.len(),
        forall|k: int| 0 <= k < first_free(s) ==> #[trigger] s[k] is Some,
        first_free(s) < s.len() ==> s[first_free(s)] is None,
{
    if exists|i: int| 0 <= i < s.len() && s[i] is None {
        let w = choose|i: int| 0 <= i < s.len() && s[i] is None;
        lemma_least_free(s, w);
    }
}

proof fn lemma_least_free<T>(s: Seq<Option<T>>, w: int)
    requires
        0 <= w < s.len(),
        s[w] is None,
    ensures
        exists|i: int|
            0 <= i < s.len() && s[i] is None && forall|k: int| 0 <= k < i ==> s[k] is Some,
    decreases w,
{
    if exists|k: int| 0 <= k < w && s[k] is None {
        let k = choose|k: int| 0 <= k < w && s[k] is None;
        lemma_least_free(s, k);
    } else {
        assert(forall|k: int| 0 <= k < w ==> s[k] is Some);
    }
}

/// Two semaphores created one after the other get distinct ids, the second
/// above the first, and each keeps the count it was created with (as long as
/// the list is shorter than the largest `isize`, so that ids convert
/// faithfully).
pub proof fn lemma_semaphore_ids_increase(
    p0: ProcessSync,
    p1: ProcessSync,
    p2: ProcessSync,
    a: usize,
    b: usize,
    r1: isize,
    r2: isize,
)
    requires
        semaphore_create_post(p0, p1, a, r1),
        semaphore_create_post(p1, p2, b, r2),
        p1.semaphore_list@.len() < isize::MAX,
    ensures
        0 <= r1 < r2,
        p2.semaphore_list@[r1 as int] == p1.semaphore_list@[r1 as int],
        p2.semaphore_list@[r1 as int]->0.inner.count == a as isize,
        p2.semaphore_list@[r2 as int]->0.inner.count == b as isize,
{
    let l0 = p0.semaphore_list@;
    let l1 = p1.semaphore_list@;
    let id1 = first_free(l0);
    let id2 = first_free(l1);
    lemma_first_free(l0);
    lemma_first_free(l1);
    assert(id1 < l1.len());
    assert forall|k: int| 0 <= k <= id1 implies #[trigger] l1[k] is Some by {
        if k < id1 {
            assert(l0[k] is Some);
        }
    }
    assert(id1 < id2) by {
        if id2 <= id1 {
            if id2 < l1.len() {
                assert(l1[id2] is None);
                assert(l1[id2] is Some);
            }
        }
    }
}

/// Creates a semaphore holding `res_count` units in the lowest free slot,
/// and returns its id.
pub fn sys_semaphore_create(p: &mut ProcessSync, res_count: usize) -> (r: isize)
    ensures
        semaphore_create_post(*old(p), *final(p), res_count, r),
        old(p).wf() && res_count <= isize::MAX ==> final(p).wf(),
{
    let sem = Semaphore::new(res_count);
    let id = place(&mut p.semaphore_list, sem);
    id as isize
}

/// Gives a unit back to semaphore `sem_id`; returns 0 and the thread to
/// wake, if any.
pub fn sys_semaphore_up(p: &mut ProcessSync, sem_id: usize) -> (r: (isize, Option<usize>))
    requires
        sem_id < old(p).semaphore_list.len(),
        old(p).semaphore_list@[sem_id as int] is Some,
        old(p).semaphore_list@[sem_id as int]->0.inner.count < isize::MAX,
    ensures
        r.0 == 0,
        final(p).semaphore_list@ == old(p).semaphore_list@.update(
            sem_id as int,
            final(p).semaphore_list@[sem_id as int],
        ),
        final(p).semaphore_list@[sem_id as int] is Some,
        up_post(
            &old(p).semaphore_list@[sem_id as int]->0,
            &final(p).semaphore_list@[sem_id as int]->0,
            r.1,
        ),
        only_semaphores_changed(*old(p), *final(p)),
        old(p).wf() ==> final(p).wf(),
{
    let woken = up_slot(&mut p.semaphore_list, sem_id);
    (0, woken)
}

/// Takes a unit of semaphore `sem_id` for thread `tid`. With deadlock
/// detection on, the request is refused with [`DEADLOCK`], and nothing
/// changes, when granting it would leave no order in which all threads can
/// finish; otherwise the call returns 0 and whether the thread blocks.
pub fn sys_semaphore_down(p: &mut ProcessSync, sem_id: usize, tid: usize) -> (r: (isize, bool))
    requires
        sem_id < old(p).semaphore_list.len(),
        old(p).semaphore_list@[sem_id as int] is Some,
        old(p).semaphore_list@[sem_id as int]->0.inner.count > isize::MIN,
        old(p).detect_deadlock ==> tid < old(p).task_count && names_below(
            semaphore_usages(old(p).semaphore_list@),
            old(p).task_count as int,
        ),
    ensures
        ({
            let refused = old(p).detect_deadlock && request_deadlocks(
                semaphore_usages(old(p).semaphore_list@),
                old(p).task_count as int,
                tid as int,
                sem_id as int,
            );
            &&& refused ==> r == (DEADLOCK, false) && *final(p) == *old(p)
            &&& !refused ==> {
                &&& r.0 == 0
                &&& final(p).semaphore_list@ == old(p).semaphore_list@.update(
                    sem_id as int,
                    final(p).semaphore_list@[sem_id as int],
                )
                &&& final(p).semaphore_list@[sem_id as int] is Some
                &&& down_post(
                    &old(p).semaphore_list@[sem_id as int]->0,
                    &final(p).semaphore_list@[sem_id as int]->0,
                    tid,
                    r.1,
                )
                &&& only_semaphores_changed(*old(p), *final(p))
            }
        }),
        old(p).wf() ==> final(p).wf(),
{
    if p.detect_deadlock {
        let sem_count = p.semaphore_list.len();
        if sem_count == 0 {
            return (DEADLOCK, false);
        }
        let us = semaphore_usage(&p.semaphore_list);
        proof {
            assert(us@.len() == usage_views(us@).len());
        }
        if !request_is_safe(&us, p.task_count, tid, sem_id) {
            return (DEADLOCK, false);
        }
    }
    let blocked = down_slot(&mut p.semaphore_list, sem_id, tid);
    (0, blocked)
}

/// Creates a condition variable in the lowest free slot, and returns its id.
pub fn sys_condvar_create(p: &mut ProcessSync) -> (r: isize)
    ensures
        r == first_free(old(p).condvar_list@) as isize,
        placed(old(p).condvar_list@, final(p).condvar_list@, first_free(old(p).condvar_list@)),
        final(p).condvar_list@[first_free(old(p).condvar_list@)]->0.wait_queue@ == Seq::<usize>::empty(),
        only_condvars_changed(*old(p), *final(p)),
        old(p).wf() ==> final(p).wf(),
{
    let id = place(&mut p.condvar_list, Condvar::new());
    id as isize
}

/// Signals condition variable `condvar_id`; returns 0 and the thread to
/// wake, if any.
pub fn sys_condvar_signal(p: &mut ProcessSync, condvar_id: usize) -> (r: (isize, Option<usize>))
    requires
        condvar_id < old(p).condvar_list.len(),
        old(p).condvar_list@[condvar_id as int] is Some,
    ensures
        r.0 == 0,
        final(p).condvar_list@ == old(p).condvar_list@.update(
            condvar_id as int,
            final(p).condvar_list@[condvar_id as int],
        ),
        final(p).condvar_list@[condvar_id as int] is Some,
        signal_post(
            &old(p).condvar_list@[condvar_id as int]->0,
            &final(p).condvar_list@[condvar_id as int]->0,
            r.1,
        ),
        only_condvars_changed(*old(p), *final(p)),
        old(p).wf() ==> final(p).wf(),
{
    let mut slot: Option<Condvar> = None;
    std::mem::swap(&mut slot, &mut p.condvar_list[condvar_id]);
    let woken = match &mut slot {
        Some(c) => c.signal(),
        None => None,
    };
    p.condvar_list.set(condvar_id, slot);
    (0, woken)
}

/// The part of a wait on condition variable `condvar_id` that comes before
/// thread `tid` sleeps: mutex `mutex_id` is unlocked (which may hand it to a
/// thread, returned to be woken) and the thread joins the condition
/// variable's queue. The call returns 0; once woken, the thread locks the
/// mutex again. A sleeping mutex must be held.
pub fn sys_condvar_wait(p: &mut ProcessSync, condvar_id: usize, mutex_id: usize, tid: usize) -> (r: (isize, Option<usize>))
    requires
        condvar_id < old(p).condvar_list.len(),
        old(p).condvar_list@[condvar_id as int] is Some,
        mutex_id < old(p).mutex_list.len(),
        old(p).mutex_list@[mutex_id as int] is Some,
        old(p).mutex_list@[mutex_id as int]->0.blocks() ==> old(p).mutex_list@[mutex_id as int]->0.is_locked(),
    ensures
        r.0 == 0,
        final(p).mutex_list@ == old(p).mutex_list@.update(
            mutex_id as int,
            final(p).mutex_list@[mutex_id as int],
        ),
        final(p).mutex_list@[mutex_id as int] is Some,
        unlock_post(
            &old(p).mutex_list@[mutex_id as int]->0,
            &final(p).mutex_list@[mutex_id as int]->0,
            tid,
            r.1,
        ),
        final(p).condvar_list@ == old(p).condvar_list@.update(
            condvar_id as int,
            final(p).condvar_list@[condvar_id as int],
        ),
        final(p).condvar_list@[condvar_id as int] is Some,
        final(p).condvar_list@[condvar_id as int]->0.wait_queue@
            == old(p).condvar_list@[condvar_id as int]->0.wait_queue@.push(tid),
        final(p).semaphore_list@ == old(p).semaphore_list@,
        final(p).detect_deadlock == old(p).detect_deadlock,
        final(p).task_count == old(p).task_count,
        old(p).wf() ==> final(p).wf(),
{
    let mut cslot: Option<Condvar> = None;
    std::mem::swap(&mut cslot, &mut p.condvar_list[condvar_id]);
    let mut mslot: Option<AnyMutex> = None;
    std::mem::swap(&mut mslot, &mut p.mutex_list[mutex_id]);
    let woken = match &mut cslot {
        Some(c) => match &mut mslot {
            Some(m) => c.wait(m, tid),
            None => None,
        },
        None => None,
    };
    p.mutex_list.set(mutex_id, mslot);
    p.condvar_list.set(condvar_id, cslot);
    (0, woken)
}

/// Turns deadlock detection off (0) or on (1) and returns 0; any other value
/// returns -1 and changes nothing.
pub fn sys_enable_deadlock_detect(p: &mut ProcessSync, enabled: usize) -> (r: isize)
    ensures
        enabled == 0 ==> r == 0 && !final(p).detect_deadlock,
        enabled == 1 ==> r == 0 && final(p).detect_deadlock,
        enabled > 1 ==> r == -1 && final(p).detect_deadlock == old(p).detect_deadlock,
        final(p).mutex_list@ == old(p).mutex_list@,
        final(p).semaphore_list@ == old(p).semaphore_list@,
        final(p).condvar_list@ == old(p).condvar_list@,
        final(p).task_count == old(p).task_count,
{
    match enabled {
        0 => {
            p.detect_deadlock = false;
            0
        },
        1 => {
            p.detect_deadlock = true;
            0
        },
        _ => -1,
    }
}

/// What the deadlock test reads of the semaphore in slot `i`, for thread
/// `t`: the free units are never negative (the count when it is not
/// negative, 0 otherwise, as `get_available` says); the thread holds as many
/// units as it has grants; it asks for as many as it has places in the queue.
pub proof fn lemma_semaphore_report(list: Seq<Option<Semaphore>>, n: int, i: int, t: int)
    requires
        0 <= i < list.len(),
        list[i] is Some,
        0 <= t < n,
        list[i]->0.inner.allocated@.len() <= usize::MAX,
        list[i]->0.inner.wait_queue@.len() <= usize::MAX,
    ensures
        available_of(semaphore_usages(list))[i] >= 0,
        available_of(semaphore_usages(list))[i] == (if list[i]->0.inner.count < 0 {
            0int
        } else {
            list[i]->0.inner.count as int
        }),
        allocated_of(semaphore_usages(list), n)[t][i] == occurrences(list[i]->0.inner.allocated@, t),
        need_of(semaphore_usages(list), n)[t][i] == occurrences(list[i]->0.inner.wait_queue@, t),
{
    let sem = list[i]->0;
    lemma_occurrences_bounds(sem.inner.allocated@, t);
    lemma_occurrences_bounds(sem.inner.wait_queue@, t);
}

/// Every thread queued on a semaphore is read by the deadlock test as
/// asking for a unit of it, and every holder of a grant as holding one.
pub proof fn lemma_semaphore_queue_and_grants_counted(list: Seq<Option<Semaphore>>, n: int, i: int, k: int)
    requires
        0 <= i < list.len(),
        list[i] is Some,
        list[i]->0.inner.allocated@.len() <= usize::MAX,
        list[i]->0.inner.wait_queue@.len() <= usize::MAX,
    ensures
        0 <= k < list[i]->0.inner.wait_queue@.len() && list[i]->0.inner.wait_queue@[k] < n
            ==> need_of(semaphore_usages(list), n)[list[i]->0.inner.wait_queue@[k] as int][i] >= 1,
        0 <= k < list[i]->0.inner.allocated@.len() && list[i]->0.inner.allocated@[k] < n
            ==> allocated_of(semaphore_usages(list), n)[list[i]->0.inner.allocated@[k] as int][i] >= 1,
{
    let sem = list[i]->0;
    if 0 <= k < sem.inner.wait_queue@.len() && sem.inner.wait_queue@[k] < n {
        let t = sem.inner.wait_queue@[k] as int;
        lemma_occurrences_member(sem.inner.wait_queue@, k);
        lemma_semaphore_report(list, n, i, t);
    }
    if 0 <= k < sem.inner.allocated@.len() && sem.inner.allocated@[k] < n {
        let t = sem.inner.allocated@[k] as int;
        lemma_occurrences_member(sem.inner.allocated@, k);
        lemma_semaphore_report(list, n, i, t);
    }
}

/// What the deadlock test reads of the mutex in slot `i`, for thread `t`:
/// one free unit exactly while the mutex is free; while it is held, its
/// holder holds the unit and every thread asks for it as many times as it
/// is in the queue (the whole queue, not only its front); while it is free,
/// nobody holds or asks for it.
pub proof fn lemma_mutex_report(list: Seq<Option<AnyMutex>>, n: int, i: int, t: int)
    requires
        0 <= i < list.len(),
        list[i] is Some,
        0 <= t < n,
        list[i]->0.waiters().len() <= usize::MAX,
    ensures
        available_of(mutex_usages(list))[i] == (if list[i]->0.is_locked() {
            0int
        } else {
            1int
        }),
        list[i]->0.is_locked() ==> allocated_of(mutex_usages(list), n)[t][i] == (if t
            == list[i]->0.holder() {
            1int
        } else {
            0int
        }),
        list[i]->0.is_locked() ==> need_of(mutex_usages(list), n)[t][i] == occurrences(
            list[i]->0.waiters(),
            t,
        ),
        !list[i]->0.is_locked() ==> allocated_of(mutex_usages(list), n)[t][i] == 0
            && need_of(mutex_usages(list), n)[t][i] == 0,
{
    let m = list[i]->0;
    lemma_occurrences_single(m.holder(), t);
    lemma_occurrences_bounds(m.waiters(), t);
    assert(occurrences(Seq::<usize>::empty(), t) == 0);
    if m.is_locked() && m.waiters().len() == 0 {
        assert(occurrences(m.waiters(), t) == 0);
    }
}

/// Every thread queued on a held mutex is read by the deadlock test as
/// asking for it.
pub proof fn lemma_mutex_waiters_counted(list: Seq<Option<AnyMutex>>, n: int, i: int, k: int)
    requires
        0 <= i < list.len(),
        list[i] is Some,
        list[i]->0.is_locked(),
        0 <= k < list[i]->0.waiters().len(),
        list[i]->0.waiters()[k] < n,
        list[i]->0.waiters().len() <= usize::MAX,
    ensures
        need_of(mutex_usages(list), n)[list[i]->0.waiters()[k] as int][i] >= 1,
{
    let m = list[i]->0;
    lemma_occurrences_member(m.waiters(), k);
    lemma_mutex_report(list, n, i, m.waiters()[k] as int);
}

} // verus!
