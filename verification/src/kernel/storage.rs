use crate::kernel::tcb::Tcb;
use vstd::prelude::*;

verus! {

/// Stack and control block of one task.
///
/// `N` is the stack size in words. The control block lies above the stack, out
/// of the way of a stack that overflows downwards.
pub struct TaskStorage<const N: usize> {
    /// Stack area, used from its end downwards.
    pub stack: [u32; N],
    /// Task control block.
    pub tcb: Tcb,
}

impl<const N: usize> TaskStorage<N> {
    /// A zeroed storage.
    pub fn new() -> (r: TaskStorage<N>)
        ensures
            r.stack@ == Seq::new(N as nat, |i: int| 0u32),
            r.tcb.is_zeroed(),
    {
        let r = TaskStorage { stack: [0u32; N], tcb: Tcb::zeroed() };
        assert(r.stack@ =~= Seq::new(N as nat, |i: int| 0u32));
        r
    }

    /// The control block.
    pub fn tcb_ptr(&mut self) -> (r: &mut Tcb)
        ensures
            *r == old(self).tcb,
            *final(self) == (TaskStorage { tcb: *final(r), ..*old(self) }),
    {
        &mut self.tcb
    }

    /// The stack words.
    pub fn stack_slice(&mut self) -> (r: &mut [u32])
        ensures
            r@ == old(self).stack@,
            final(self).stack@ == final(r)@,
            final(self).tcb == old(self).tcb,
    {
        &mut self.stack
    }
}

impl<const N: usize> Default for TaskStorage<N> {
    fn default() -> (r: TaskStorage<N>)
        ensures
            r.stack@ == Seq::new(N as nat, |i: int| 0u32),
            r.tcb.is_zeroed(),
    {
        TaskStorage::new()
    }
}

} // verus!
