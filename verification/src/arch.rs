//! Architecture layer for a 64-bit RISC-V machine-mode target
//! (integer-only: no floating-point state is ever saved).
//!
//! Everything that is pure computation is verified here: laying out the
//! first context frame of a task on its stack, and the bookkeeping of the
//! machine-interrupt enable bit.  The hardware side - the register
//! save/restore of a context switch and the CSR accesses - cannot run under
//! verification, so the interrupt-enable bit is modelled as an explicit
//! [`InterruptState`] value: the embedding program mirrors it onto the real
//! `mstatus.MIE` bit whenever one of these functions reports a change.

use vstd::prelude::*;

verus! {

/// Size of a saved context on the stack, in bytes.
/// RISC-V has 32 integer registers, but x0 (zero) is hardwired to 0,
/// so 31 registers of 8 bytes each are saved.
pub const CONTEXT_SIZE: usize = 31 * 8;

/// Number of machine words in a context frame.
pub const CONTEXT_WORDS: usize = 31;

/// Stack alignment required by the RISC-V ABI, in bytes.
pub const STACK_ALIGNMENT: usize = 16;

/// Initialize a task's stack for first-time execution.
///
/// A fake context frame goes on the stack so that the very first restore
/// "returns" into the task's entry point: all 31 saved registers are
/// zeroed, except the `ra` slot (offset 0 of the frame), which holds the
/// entry address.
///
/// The stack buffer is a word array that the caller keeps at address
/// `base`; stacks grow downward from `base + 8 * stack.len()`.  The top is
/// aligned down to 16 bytes, the 31 words of the frame are reserved below
/// it, and the frame base is aligned down to 16 bytes again so that the
/// returned stack pointer satisfies the ABI.  The returned address is what
/// the task control block stores as its initial `stack_top`.
pub fn initialize_task_stack(entry: usize, base: usize, stack: &mut Vec<usize>) -> (sp: usize)
    requires
        base % 8 == 0,
        base + 8 * old(stack)@.len() <= usize::MAX,
        old(stack)@.len() >= 33,
    ensures
        ({
            let top = base + 8 * old(stack)@.len();
            let aligned_top = top - top % 16;
            let below = aligned_top - CONTEXT_SIZE;
            sp == below - below % 16
        }),
        sp % 16 == 0,
        base <= sp,
        sp + CONTEXT_SIZE <= base + 8 * old(stack)@.len(),
        (sp - base) % 8 == 0,
        final(stack)@.len() == old(stack)@.len(),
        ({
            let fi = (sp - base) / 8;
            &&& final(stack)@[fi] == entry
            &&& forall|j: int| fi < j < fi + CONTEXT_WORDS ==> final(stack)@[j] == 0
            &&& forall|j: int|
                0 <= j < old(stack)@.len() && !(fi <= j < fi + CONTEXT_WORDS)
                    ==> final(stack)@[j] == old(stack)@[j]
        }),
{
    // Top of the stack (stacks grow downward), aligned down to 16 bytes.
    let stack_top: usize = base + 8 * stack.len();
    let aligned_top: usize = stack_top - stack_top % 16;

    // Reserve space for the context (31 registers), and align the frame
    // base down to 16 bytes as the ABI requires of a stack pointer.
    let below: usize = aligned_top - CONTEXT_SIZE;
    let sp: usize = below - below % 16;

    proof {
        assert(stack_top % 8 == 0) by (nonlinear_arith)
            requires
                base % 8 == 0,
                stack_top == base + 8 * stack@.len(),
        ;
        assert(stack_top % 16 == 0 || stack_top % 16 == 8) by (nonlinear_arith)
            requires
                stack_top % 8 == 0,
        ;
        assert(aligned_top % 16 == 0) by (nonlinear_arith)
            requires
                aligned_top == stack_top - stack_top % 16,
        ;
        assert(sp % 16 == 0) by (nonlinear_arith)
            requires
                sp == below - below % 16,
        ;
        assert(sp % 8 == 0) by (nonlinear_arith)
            requires
                sp % 16 == 0,
        ;
        assert((sp - base) % 8 == 0) by (nonlinear_arith)
            requires
                sp % 8 == 0,
                base % 8 == 0,
                base <= sp,
        ;
        assert(below % 16 == 8) by (nonlinear_arith)
            requires
                aligned_top % 16 == 0,
                below == aligned_top - 248,
                aligned_top >= 248,
        ;
    }

    // Word index of the frame within the buffer.
    let fi: usize = (sp - base) / 8;
    proof {
        assert(8 * fi == sp - base) by (nonlinear_arith)
            requires
                (sp - base) % 8 == 0,
                fi == (sp - base) / 8,
                sp >= base,
        ;
        assert(sp == aligned_top - 256);
        assert(sp + CONTEXT_SIZE <= base + 8 * stack@.len());
        assert(fi + CONTEXT_WORDS <= stack@.len()) by (nonlinear_arith)
            requires
                8 * fi == sp - base,
                sp + 248 <= base + 8 * stack@.len(),
        ;
    }

    // Zero all 31 registers of the frame.
    let frame_end: usize = fi + CONTEXT_WORDS;
    let mut i: usize = 0;
    while i < CONTEXT_WORDS
        invariant
            i <= CONTEXT_WORDS,
            frame_end == fi + CONTEXT_WORDS,
            fi + CONTEXT_WORDS <= stack@.len(),
            stack@.len() == old(stack)@.len(),
            forall|j: int| fi <= j < fi + i ==> stack@[j] == 0,
            forall|j: int|
                0 <= j < stack@.len() && !(fi <= j < fi + CONTEXT_WORDS) ==> stack@[j] == old(
                    stack,
                )@[j],
        decreases CONTEXT_WORDS - i,
    {
        stack.set(fi + i, 0);
        i = i + 1;
    }

    // Set ra (x1), the first slot of the frame, to the task entry point:
    // the first context restore "returns" there.
    stack.set(fi, entry);

    sp
}

/// Model of the machine-interrupt enable bit (`mstatus.MIE`).
///
/// The embedding program owns one value of this type for the single hart
/// and applies every transition to the hardware bit (`csrsi`/`csrci`).
pub struct InterruptState {
    /// Whether machine interrupts are enabled.
    pub enabled: bool,
}

impl InterruptState {
    pub fn new(enabled: bool) -> (r: Self)
        ensures
            r.enabled == enabled,
    {
        InterruptState { enabled }
    }

    pub fn is_enabled(&self) -> (r: bool)
        ensures
            r == self.enabled,
    {
        self.enabled
    }
}

/// Disable interrupts (enter a critical section).
///
/// Returns the previous interrupt state.
pub fn disable_interrupts(intr: &mut InterruptState) -> (was_enabled: bool)
    ensures
        !final(intr).enabled,
        was_enabled == old(intr).enabled,
{
    let was_enabled = intr.enabled;
    intr.enabled = false;
    was_enabled
}

/// Enable interrupts (exit a critical section).
pub fn enable_interrupts(intr: &mut InterruptState)
    ensures
        final(intr).enabled,
{
    intr.enabled = true;
}

/// Restore a previously observed interrupt state: re-enable only if
/// interrupts were enabled before.
pub fn restore_interrupts(intr: &mut InterruptState, enabled: bool)
    ensures
        final(intr).enabled == (old(intr).enabled || enabled),
{
    if enabled {
        enable_interrupts(intr);
    }
}

/// Scoped guard for critical sections.
///
/// Entering disables interrupts and captures the previous state; leaving
/// restores whatever was observed on entry, so guards nest safely.
pub struct CriticalSection {
    /// Interrupt state observed on entry.
    pub was_enabled: bool,
}

impl CriticalSection {
    /// Enter a critical section (disable interrupts).
    pub fn enter(intr: &mut InterruptState) -> (guard: Self)
        ensures
            !final(intr).enabled,
            guard.was_enabled == old(intr).enabled,
    {
        CriticalSection { was_enabled: disable_interrupts(intr) }
    }

    /// Leave the critical section, restoring the state observed on entry.
    pub fn leave(self, intr: &mut InterruptState)
        ensures
            final(intr).enabled == (old(intr).enabled || self.was_enabled),
    {
        restore_interrupts(intr, self.was_enabled);
    }
}

} // verus!
