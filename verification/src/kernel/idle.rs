use crate::arch::ArchContext;
use crate::kernel::storage::TaskStorage;
use crate::kernel::wait_list::WaitList;
use crate::kernel::Kernel;
use crate::task::spawn_into;
use vstd::prelude::*;

verus! {

/// Stack size of the idle task in words.
pub const IDLE_STACK_WORDS: usize = 64;

/// Register the idle task with the kernel.
///
/// It runs at the lowest priority and never blocks, so that the scheduler always
/// has a task to run. `stack_base` is the address of its stack, `entry` that of
/// its body and `exit` that of the code that catches tasks that return.
pub fn register<A: ArchContext>(
    k: &mut Kernel,
    storage: &mut TaskStorage<IDLE_STACK_WORDS>,
    stack_base: usize,
    entry: usize,
    exit: usize,
)
    requires
        old(k).wf(),
        stack_base + 4 * IDLE_STACK_WORDS <= usize::MAX,
    ensures
        final(k).wf(),
        final(k).has_runnable(),
        crate::task::spawned(
            *old(k),
            *final(k),
            (stack_base + 4 * (IDLE_STACK_WORDS - 17)) as usize,
            stack_base,
            u8::MAX,
            1,
            "idle",
        ),
        forall|l: WaitList| old(k).holds(l) ==> #[trigger] final(k).holds(l),
        final(storage).tcb == old(storage).tcb,
        final(storage).stack@ == crate::arch::framed(
            crate::arch::guarded(old(storage).stack@),
            entry,
            A::return_address(exit),
        ),
{
    let tcb = *storage.tcb_ptr();
    let stack: &mut [u32] = storage.stack_slice();
    spawn_into::<A>(k, tcb, stack, stack_base, u8::MAX, 1, entry, exit, "idle");
    assert(crate::kernel::scheduler::runnable(k.tasks@[old(k).tasks@.len() as int]));
}

} // verus!
