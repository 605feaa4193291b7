use crate::arch::{build_frame, ArchContext};
use vstd::prelude::*;

verus! {

/// ARMv7-M (Cortex-M3 / M4 without a floating-point context).
pub struct V7m;

impl ArchContext for V7m {
    open spec fn return_address(exit: usize) -> u32 {
        exit as u32 | 1u32
    }

    fn stack_init(stack: &mut [u32], base: usize, entry: usize, exit: usize) -> (sp: usize) {
        stack_init(stack, base, entry, exit)
    }
}

/// Build the initial stack frame of a task; the return address is `exit` with
/// the Thumb bit set.
pub fn stack_init(stack: &mut [u32], base: usize, entry: usize, exit: usize) -> (sp: usize)
    requires
        old(stack)@.len() >= 21,
        base + 4 * old(stack)@.len() <= usize::MAX,
    ensures
        final(stack)@ == crate::arch::framed(old(stack)@, entry, exit as u32 | 1u32),
        sp == base + 4 * (old(stack)@.len() - 17),
{
    build_frame(stack, base, entry, exit as u32 | 1u32)
}

} // verus!
