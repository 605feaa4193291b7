use crate::arch::{build_frame, ArchContext};
use vstd::prelude::*;

verus! {

/// Return address of a task on a development machine: tasks must not return.
pub const RETURN_SENTINEL: u32 = 0xDEAD_0001;

/// A development machine, with the frame layout of the embedded targets.
pub struct HostContext;

impl ArchContext for HostContext {
    open spec fn return_address(exit: usize) -> u32 {
        RETURN_SENTINEL
    }

    fn stack_init(stack: &mut [u32], base: usize, entry: usize, exit: usize) -> (sp: usize) {
        build_frame(stack, base, entry, RETURN_SENTINEL)
    }
}

} // verus!
