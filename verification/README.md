# kangaroos

The kernel of a small preemptive real-time operating system for single-core
Cortex-M processors, verified with Verus: fixed-priority scheduling with
round-robin among equals, sleeping and timers, semaphores, mutexes with priority
inheritance, condition variables, event flags, one-time initialisation, bounded
channels and fixed-capacity memory pools.

## Layout

- `src/` is the library. Verus checks all of it against its contracts, but for the
  bodies of the small wrappers around `syn` and `str::to_uppercase` in
  `attribute/tokens.rs`, whose contracts it takes on trust.
  - `kernel/` holds the task table, the scheduler, the wait lists, the tick
    handler and the idle task.
  - `sync/`, `channel/` and `mem/` hold the primitives that tasks block on.
  - `task.rs` and `timer/` hold spawning, sleeping and the clock.
  - `arch/` lays out the first stack frame of a task and the stack canary.
  - `attribute/` reads the arguments of the `task` and `main` attributes and
    decides what they expand to.
- `app/` fits the library to a processor: the global kernel, the exception
  handlers, handles that block, and the expansion of the attributes. The library
  keeps its tables in `Vec` and `HashMap`, so it needs `std` and a heap, which a
  bare Cortex-M target does not have by itself.
- `tests/` runs the library on concrete values.

## How it is modelled

All scheduler state is one value, `Kernel`. A task is named by its index in the
kernel's task table. Operations take the kernel by mutable reference, which stands
for running with interrupts disabled. An operation that blocks marks the current
task as blocked and sets `Kernel::pendsv`; the caller performs the context switch,
and the operation's result is picked up when the task runs again.

Each primitive has a predicate `wf` that ties it to a kernel. Constructors
establish it, operations preserve it, and the proof functions whose names start
with `law_` state what holds of the library as a whole.
