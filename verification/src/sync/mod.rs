pub mod condvar;
pub mod event_group;
pub mod mutex;
pub mod once;
pub mod semaphore;

pub use condvar::Condvar;
pub use event_group::EventGroup;
pub use mutex::{Mutex, MutexGuard};
pub use once::Once;
pub use semaphore::Semaphore;
