pub mod condvar;
pub mod deadlock;
pub mod mutex;
pub mod semaphore;
