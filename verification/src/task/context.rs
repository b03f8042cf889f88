//! The kernel-side registers saved by a task switch.
use vstd::prelude::*;

verus! {

/// The return address, stack pointer and callee-saved registers of a task
/// that is switched out.
#[derive(Clone, Copy)]
pub struct TaskContext {
    pub ra: usize,
    pub sp: usize,
    pub s: [usize; 12],
}

impl TaskContext {
    /// A context of zeros.
    pub fn zero_init() -> (cx: Self)
        ensures
            cx.ra == 0,
            cx.sp == 0,
            forall|i: int| 0 <= i < 12 ==> cx.s[i] == 0,
    {
        TaskContext { ra: 0, sp: 0, s: [0usize; 12] }
    }

    /// A context that, once switched to, returns to user mode through
    /// `trap_return` on the kernel stack whose top is `kstack_ptr`.
    pub fn goto_trap_return(trap_return: usize, kstack_ptr: usize) -> (cx: Self)
        ensures
            cx.ra == trap_return,
            cx.sp == kstack_ptr,
            forall|i: int| 0 <= i < 12 ==> cx.s[i] == 0,
    {
        TaskContext { ra: trap_return, sp: kstack_ptr, s: [0usize; 12] }
    }
}

} // verus!
