use vstd::prelude::*;

pub mod host;
pub mod v6m;
pub mod v7em_fpu;
pub mod v7m;
pub mod v8m;

verus! {

/// Word written to the bottom of every stack to detect an overflow.
pub const CANARY: u32 = 0xDEAD_BEEF;

/// Status register of a fresh task: the Thumb bit.
pub const XPSR: u32 = 0x0100_0000;

/// Exception return to thread mode on the process stack, without a
/// floating-point frame.
pub const EXC_RETURN: u32 = 0xFFFF_FFFD;

/// A stack once the initial frame of a task is on it: eight words as the
/// hardware stacks them on an exception, and below them nine words as a context
/// switch saves them.
///
/// ```text
///  [n-1]  xPSR
///  [n-2]  PC          entry, with bit 0 cleared
///  [n-3]  LR          where the task goes if it ever returns
///  [n-4]  R12, R3..R0
///  [n-9]  EXC_RETURN
///  [n-10] R11..R4     the saved stack pointer names [n-17]
/// ```
pub open spec fn framed(stack: Seq<u32>, entry: usize, lr: u32) -> Seq<u32> {
    let n = stack.len();
    Seq::new(
        n,
        |i: int|
            if i < n - 17 {
                stack[i]
            } else if i == n - 1 {
                XPSR
            } else if i == n - 2 {
                entry as u32 & !1u32
            } else if i == n - 3 {
                lr
            } else if i == n - 9 {
                EXC_RETURN
            } else {
                0
            },
    )
}

/// A stack with the canary in its four lowest words.
pub open spec fn guarded(stack: Seq<u32>) -> Seq<u32> {
    Seq::new(
        stack.len(),
        |i: int|
            if i < 4 {
                CANARY
            } else {
                stack[i]
            },
    )
}

/// The canary at the bottom of a stack is intact.
pub open spec fn intact(stack: Seq<u32>) -> bool {
    forall|i: int| 0 <= i < 4 ==> #[trigger] stack[i] == CANARY
}

/// What a processor variant has to provide.
pub trait ArchContext {
    /// The return address a fresh task starts with, given the address of the
    /// code that catches tasks that return.
    spec fn return_address(exit: usize) -> u32;

    /// Build the initial stack frame of a task.
    ///
    /// `base` is the address of the lowest word of `stack`, `entry` the address
    /// of the task function and `exit` that of the code that catches tasks that
    /// return. Returns the stack pointer to keep for the task: the address of
    /// the lowest word of the frame.
    fn stack_init(stack: &mut [u32], base: usize, entry: usize, exit: usize) -> (sp: usize)
        requires
            old(stack)@.len() >= 21,
            base + 4 * old(stack)@.len() <= usize::MAX,
        ensures
            final(stack)@ == framed(old(stack)@, entry, Self::return_address(exit)),
            sp == base + 4 * (old(stack)@.len() - 17),
    ;

    /// Write the canary to the bottom four words of the stack.
    fn canary_init(stack: &mut [u32])
        requires
            old(stack)@.len() >= 4,
        ensures
            final(stack)@ == guarded(old(stack)@),
    {
        stack[0] = CANARY;
        stack[1] = CANARY;
        stack[2] = CANARY;
        stack[3] = CANARY;
    }

    /// Return `true` if the canary at the bottom of the stack is intact.
    fn canary_check(stack: &[u32]) -> (r: bool)
        requires
            stack@.len() >= 4,
        ensures
            r == intact(stack@),
    {
        stack[0] == CANARY && stack[1] == CANARY && stack[2] == CANARY && stack[3] == CANARY
    }
}

/// Write the initial frame with the return address `lr`.
fn build_frame(stack: &mut [u32], base: usize, entry: usize, lr: u32) -> (sp: usize)
    requires
        old(stack)@.len() >= 21,
        base + 4 * old(stack)@.len() <= usize::MAX,
    ensures
        final(stack)@ == framed(old(stack)@, entry, lr),
        sp == base + 4 * (old(stack)@.len() - 17),
{
    let n: usize = stack.len();

    // Hardware exception frame.
    stack[n - 1] = XPSR;
    stack[n - 2] = entry as u32 & !1u32;
    stack[n - 3] = lr;
    stack[n - 4] = 0;
    stack[n - 5] = 0;
    stack[n - 6] = 0;
    stack[n - 7] = 0;
    stack[n - 8] = 0;

    // Software frame, as a context switch saves it.
    stack[n - 9] = EXC_RETURN;
    stack[n - 10] = 0;
    stack[n - 11] = 0;
    stack[n - 12] = 0;
    stack[n - 13] = 0;
    stack[n - 14] = 0;
    stack[n - 15] = 0;
    stack[n - 16] = 0;
    stack[n - 17] = 0;

    base + 4 * (n - 17)
}

/// The initial frame leaves the canary alone: the stack of a fresh task shows
/// no overflow.
pub proof fn law_fresh_stack_is_intact(stack: Seq<u32>, entry: usize, lr: u32)
    requires
        stack.len() >= 21,
    ensures
        intact(framed(guarded(stack), entry, lr)),
{
}

/// What the hardware and the first context switch find on a fresh stack: at the top
/// the status word with the Thumb bit alone, the address of the task function with
/// bit 0 cleared and the return address; nine words below the top the code that
/// returns to thread mode on the process stack. All registers are zero, and whatever
/// lies below the seventeen words of the frame is as it was.
pub proof fn law_fresh_frame(stack: Seq<u32>, entry: usize, lr: u32, i: int)
    requires
        stack.len() >= 21,
        0 <= i < stack.len(),
    ensures
        ({
            let n = stack.len() as int;
            let frame = framed(stack, entry, lr);
            &&& frame.len() == n
            &&& frame[n - 1] == 0x0100_0000u32
            &&& frame[n - 2] == entry as u32 & 0xFFFF_FFFEu32
            &&& frame[n - 3] == lr
            &&& frame[n - 9] == 0xFFFF_FFFDu32
            &&& n - 17 <= i < n - 9 || n - 9 < i < n - 3 ==> frame[i] == 0
            &&& i < n - 17 ==> frame[i] == stack[i]
        }),
{
    assert(!1u32 == 0xFFFF_FFFEu32) by (bit_vector);
}

/// The canary is the same word in the four lowest places, the rest of the stack is
/// left alone, and a stack passes the test exactly when all four are in place.
pub proof fn law_canary_guards_four_words(stack: Seq<u32>, i: int)
    requires
        stack.len() >= 4,
        0 <= i < stack.len(),
    ensures
        guarded(stack).len() == stack.len(),
        guarded(stack)[i] == (if i < 4 {
            0xDEAD_BEEFu32
        } else {
            stack[i]
        }),
        intact(stack) <==> stack[0] == 0xDEAD_BEEFu32 && stack[1] == 0xDEAD_BEEFu32 && stack[2]
            == 0xDEAD_BEEFu32 && stack[3] == 0xDEAD_BEEFu32,
{
}

/// A task that returns goes to the code that catches it, with the Thumb bit set, on
/// every processor; on a development machine its return address is a sentinel.
pub proof fn law_tasks_that_return_are_caught(exit: usize)
    ensures
        v6m::V6m::return_address(exit) == exit as u32 | 1u32,
        v7m::V7m::return_address(exit) == exit as u32 | 1u32,
        v7em_fpu::V7emFpu::return_address(exit) == exit as u32 | 1u32,
        v8m::V8m::return_address(exit) == exit as u32 | 1u32,
        host::HostContext::return_address(exit) == 0xDEAD_0001u32,
{
}

} // verus!
