//! The kernel stack that each process id owns.
use vstd::prelude::*;
use crate::mm::memory_set::PAGE_SIZE;

verus! {

/// The bytes of a kernel stack.
pub const KERNEL_STACK_SIZE: usize = 8192;

/// The lowest address of the highest page of the address space, where the
/// trap entry code is mapped.
pub const TRAMPOLINE: usize = (usize::MAX - PAGE_SIZE + 1) as usize;

/// Whether the kernel stack of `pid` fits below the trampoline.
pub open spec fn kernel_stack_fits(pid: usize) -> bool {
    pid * (KERNEL_STACK_SIZE + PAGE_SIZE) + KERNEL_STACK_SIZE <= TRAMPOLINE
}

/// The bottom and top of the kernel stack of `pid`: stacks are laid out
/// downwards from the trampoline, each followed by an unmapped guard page.
pub open spec fn spec_kernel_stack_position(pid: usize) -> (usize, usize) {
    let top = TRAMPOLINE - pid * (KERNEL_STACK_SIZE + PAGE_SIZE);
    ((top - KERNEL_STACK_SIZE) as usize, top as usize)
}

pub fn kernel_stack_position(pid: usize) -> (r: (usize, usize))
    requires
        kernel_stack_fits(pid),
    ensures
        r == spec_kernel_stack_position(pid),
{
    proof {
        assert(pid * (KERNEL_STACK_SIZE + PAGE_SIZE) <= TRAMPOLINE);
    }
    let top = TRAMPOLINE - pid * (KERNEL_STACK_SIZE + PAGE_SIZE);
    let bottom = top - KERNEL_STACK_SIZE;
    (bottom, top)
}

/// The kernel stack of a process, named by its process id.
#[derive(Clone, Copy)]
pub struct KernelStack {
    pub pid: usize,
}

impl KernelStack {
    pub fn new(pid: usize) -> (s: Self)
        ensures
            s.pid == pid,
    {
        KernelStack { pid }
    }

    /// The top address of the stack.
    pub fn get_top(&self) -> (top: usize)
        requires
            kernel_stack_fits(self.pid),
        ensures
            top == spec_kernel_stack_position(self.pid).1,
    {
        let (_, top) = kernel_stack_position(self.pid);
        top
    }
}

} // verus!
