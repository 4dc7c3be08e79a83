# os_sync

The synchronisation core of a small teaching kernel, verified with Verus.

- `src/sync/mutex.rs`: the `Mutex` trait with a yielding mutex (`MutexSpin`)
  and a sleeping one with a FIFO queue (`MutexBlocking`), and `AnyMutex`.
- `src/sync/semaphore.rs`: a counting semaphore with a FIFO queue.
- `src/sync/condvar.rs`: a condition variable.
- `src/sync/deadlock.rs`: the banker's safety test, proved to accept a state
  exactly when some order lets every thread finish.
- `src/syscall/sync.rs`: the synchronisation system calls of a process,
  including the refusal of a lock or a semaphore wait that could deadlock.
- `src/syscall/process.rs`: the decisions of `mmap`, `munmap`, `sbrk` and the
  time conversion of `get_time`.
- `app/lib.rs`: the layer that talks to the rest of the kernel (current
  thread, scheduler, clock, page table) and carries out what the library
  decides.

Threads are named by their id within their process. Operations that wake or
block say so in their result; the scheduler acts on it.
