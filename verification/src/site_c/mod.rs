pub mod cell;
pub mod mutex;
pub mod pool;
pub mod queue;
pub mod rwlock;
pub mod semaphore;
