//! The registers saved on a trap from user mode.
use vstd::prelude::*;
use riscv::register::sstatus::{Sstatus, SPP};

verus! {

/// The `sstatus` bits that the register type keeps on a 64-bit hart.
pub const SSTATUS_BITMASK: u64 = 0x8000_0003_000d_e762;

/// The `SPP` bit of `sstatus`: the privilege mode a trap came from.
pub const SSTATUS_SPP: u64 = 0x100;

/// `sstatus` bits with the previous privilege set to user mode.
pub open spec fn user_sstatus(bits: u64) -> u64 {
    (bits & SSTATUS_BITMASK) & !SSTATUS_SPP
}

/// Sets the previous-privilege field of an `sstatus` value to user mode,
/// through `Sstatus::from_bits`, `Sstatus::set_spp` and `Sstatus::bits` of
/// the `riscv` crate. Claimed: the value keeps the bits of the register's
/// bit mask, with the `SPP` bit cleared, which is what those functions do in
/// memory (they write no register) on a 64-bit target, the only one this
/// kernel runs on: the mask and the width are those of RV64.
#[verifier::external_body]
fn sstatus_user_spp(bits: u64) -> (r: u64)
    ensures
        r == user_sstatus(bits),
{
    let mut s = Sstatus::from_bits(bits as usize);
    s.set_spp(SPP::User);
    s.bits() as u64
}

/// The saved general registers, status and return address of a trap, with
/// what the trap handler needs to enter the kernel.
#[derive(Clone, Copy)]
pub struct TrapContext {
    pub x: [usize; 32],
    pub sstatus: u64,
    pub sepc: usize,
    pub kernel_satp: usize,
    pub kernel_sp: usize,
    pub trap_handler: usize,
}

impl TrapContext {
    /// Sets the stack pointer (`x2`).
    pub fn set_sp(&mut self, sp: usize)
        ensures
            final(self).x@ == old(self).x@.update(2, sp),
            final(self).sstatus == old(self).sstatus,
            final(self).sepc == old(self).sepc,
            final(self).kernel_satp == old(self).kernel_satp,
            final(self).kernel_sp == old(self).kernel_sp,
            final(self).trap_handler == old(self).trap_handler,
    {
        self.x[2] = sp;
    }

    /// The context in which an application starts: all registers zero but the
    /// stack pointer, previous privilege user, and `sepc` at the entry point.
    /// `sstatus` is the current value of the register.
    pub fn app_init_context(
        entry: usize,
        sp: usize,
        sstatus: u64,
        kernel_satp: usize,
        kernel_sp: usize,
        trap_handler: usize,
    ) -> (cx: Self)
        ensures
            cx.x@ == Seq::new(32, |i: int| if i == 2 { sp } else { 0usize }),
            cx.sstatus == user_sstatus(sstatus),
            cx.sepc == entry,
            cx.kernel_satp == kernel_satp,
            cx.kernel_sp == kernel_sp,
            cx.trap_handler == trap_handler,
    {
        let status = sstatus_user_spp(sstatus);
        let mut cx = TrapContext {
            x: [0usize; 32],
            sstatus: status,
            sepc: entry,
            kernel_satp,
            kernel_sp,
            trap_handler,
        };
        cx.set_sp(sp);
        assert(cx.x@ =~= Seq::new(32, |i: int| if i == 2 { sp } else { 0usize }));
        cx
    }
}

} // verus!
