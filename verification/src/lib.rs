//! A preemptive real-time kernel for single-core Cortex-M processors.
//!
//! All scheduler state is one value, `Kernel`. Operations take it by mutable
//! reference, which stands for running with interrupts disabled; one that blocks
//! marks the current task and requests a context switch.

pub mod arch;
pub mod attribute;
pub mod channel;
pub mod kernel;
pub mod mem;
pub mod sync;
pub mod task;
pub mod timer;

pub use kernel::tcb::Tcb;
pub use kernel::{Kernel, TaskStorage};
pub use mem::Pool;
pub use sync::{Condvar, EventGroup};
pub use task::{SpawnToken, Spawner};
