use rcore_kernel::fs::{File, OpenFlags, Stat};
use rcore_kernel::mm::memory_set::MemorySet;
use rcore_kernel::task::signal::{SignalFlags, MAX_SIG};
use rcore_kernel::task::task::{KernelEnv, LoadedElf, TaskControlBlock, TaskControlBlockInner};
use rcore_kernel::task::{
    call_kernel_signal_handler, check_signals_error_of_current, current_add_signal, handle_signals,
};
use std::sync::Arc;

struct Null;

impl File for Null {
    fn spec_readable(&self) -> bool {
        false
    }
    fn spec_writable(&self) -> bool {
        false
    }
    fn read_result(&self, before: Vec<u8>, after: Vec<u8>, n: usize) -> bool {
        n == 0 && after == before
    }
    fn write_result(&self, data: Vec<u8>, n: usize) -> bool {
        n == 0
    }
    fn stat_result(&self, before: Stat, after: Stat) -> bool {
        before.ino == after.ino
    }
    fn readable(&self) -> bool {
        false
    }
    fn writable(&self) -> bool {
        false
    }
    fn read(&self, _buf: &mut Vec<u8>) -> usize {
        0
    }
    fn write(&self, _buf: &Vec<u8>) -> usize {
        0
    }
    fn stat(&self, _st: &mut Stat) -> usize {
        0
    }
}

fn inner() -> TaskControlBlockInner<Null> {
    let env = KernelEnv { kernel_satp: 0, trap_handler: 0, trap_return: 0, sstatus: 0 };
    let elf = LoadedElf { memory_set: MemorySet::new(0, 0x1000, 16), user_sp: 0x1010, entry_point: 0x400 };
    TaskControlBlock::new(elf, 1, &env, Arc::new(Null), Arc::new(Null), Arc::new(Null)).inner
}

#[test]
fn signal_numbers() {
    assert_eq!(MAX_SIG, 31);
    assert_eq!(SignalFlags::SIGDEF().bits(), 1);
    assert_eq!(SignalFlags::SIGKILL().bits(), 1 << 9);
    assert_eq!(SignalFlags::SIGCONT().bits(), 1 << 18);
    assert_eq!(SignalFlags::SIGSTOP().bits(), 1 << 19);
    assert_eq!(SignalFlags::SIGSYS().bits(), 1 << 31);
    assert_eq!(SignalFlags::from_bits(0xffff_ffff), Some(SignalFlags { bits: 0xffff_ffff }));
}

#[test]
fn contains_insert_toggle() {
    let mut s = SignalFlags::empty();
    s.insert(SignalFlags::SIGINT());
    s.insert(SignalFlags::SIGUSR1());
    assert!(s.contains(SignalFlags::SIGINT()));
    assert!(!s.contains(SignalFlags::SIGSEGV()));
    s.toggle(SignalFlags::SIGINT());
    assert!(!s.contains(SignalFlags::SIGINT()));
    assert_eq!(s.bits(), 1 << 10);
}

#[test]
fn check_error_reports_the_first_fatal_signal() {
    let mut s = SignalFlags::empty();
    assert_eq!(s.check_error(), None);
    s.insert(SignalFlags::SIGSEGV());
    assert_eq!(s.check_error(), Some((-11, "Segmentation Fault, SIGSEGV=11")));
    s.insert(SignalFlags::SIGILL());
    assert_eq!(s.check_error(), Some((-4, "Illegal Instruction, SIGILL=4")));
    s.insert(SignalFlags::SIGINT());
    assert_eq!(s.check_error(), Some((-2, "Killed, SIGINT=2")));
    let t = SignalFlags { bits: SignalFlags::SIGABRT().bits() | SignalFlags::SIGFPE().bits() };
    assert_eq!(t.check_error(), Some((-6, "Aborted, SIGABRT=6")));
    assert_eq!(SignalFlags::SIGFPE().check_error(), Some((-8, "Erroneous Arithmetic Operation, SIGFPE=8")));
}

#[test]
fn added_signal_is_pending() {
    let mut t = inner();
    current_add_signal(&mut t, SignalFlags::SIGINT());
    assert!(t.signals.contains(SignalFlags::SIGINT()));
    assert_eq!(check_signals_error_of_current(&t), Some((-2, "Killed, SIGINT=2")));
}

#[test]
fn kernel_handler_stop_cont_kill() {
    let mut t = inner();
    t.signals.insert(SignalFlags::SIGSTOP());
    call_kernel_signal_handler(&mut t, SignalFlags::SIGSTOP());
    assert!(t.frozen);
    assert!(!t.signals.contains(SignalFlags::SIGSTOP()));
    call_kernel_signal_handler(&mut t, SignalFlags::SIGCONT());
    assert!(t.frozen);
    t.signals.insert(SignalFlags::SIGCONT());
    call_kernel_signal_handler(&mut t, SignalFlags::SIGCONT());
    assert!(!t.frozen);
    assert!(!t.signals.contains(SignalFlags::SIGCONT()));
    assert!(!t.killed);
    call_kernel_signal_handler(&mut t, SignalFlags::SIGKILL());
    assert!(t.killed);
}

#[test]
fn stop_signal_asks_for_suspension() {
    let mut t = inner();
    current_add_signal(&mut t, SignalFlags::SIGSTOP());
    assert!(handle_signals(&mut t));
    assert!(t.frozen);
    current_add_signal(&mut t, SignalFlags::SIGCONT());
    assert!(!handle_signals(&mut t));
    assert!(!t.frozen);
}

#[test]
fn killed_task_is_not_suspended() {
    let mut t = inner();
    current_add_signal(&mut t, SignalFlags::SIGSTOP());
    current_add_signal(&mut t, SignalFlags::SIGKILL());
    assert!(!handle_signals(&mut t));
    assert!(t.frozen && t.killed);
}

#[test]
fn user_handler_is_started() {
    let mut t = inner();
    t.signal_actions.table[10].handler = 0x5000;
    t.trap_cx.sepc = 0x777;
    current_add_signal(&mut t, SignalFlags::SIGUSR1());
    current_add_signal(&mut t, SignalFlags::SIGSEGV());
    assert!(!handle_signals(&mut t));
    assert_eq!(t.handling_sig, 10);
    assert_eq!(t.trap_cx.sepc, 0x5000);
    assert_eq!(t.trap_cx.x[10], 10);
    assert_eq!(t.trap_ctx_backup.unwrap().sepc, 0x777);
    assert!(!t.signals.contains(SignalFlags::SIGUSR1()));
    assert!(t.signals.contains(SignalFlags::SIGSEGV()));
}

#[test]
fn signal_without_handler_stays_pending() {
    let mut t = inner();
    current_add_signal(&mut t, SignalFlags::SIGUSR2());
    assert!(!handle_signals(&mut t));
    assert_eq!(t.handling_sig, -1);
    assert!(t.signals.contains(SignalFlags::SIGUSR2()));
}

#[test]
fn masked_signal_stays_pending() {
    let mut t = inner();
    t.signal_actions.table[10].handler = 0x5000;
    t.signal_mask.insert(SignalFlags::SIGUSR1());
    current_add_signal(&mut t, SignalFlags::SIGUSR1());
    handle_signals(&mut t);
    assert!(t.signals.contains(SignalFlags::SIGUSR1()));
    assert_eq!(t.handling_sig, -1);
}

#[test]
fn signals_masked_by_the_running_handler_wait() {
    let mut t = inner();
    t.signal_actions.table[10].handler = 0x5000;
    t.signal_actions.table[12].handler = 0x6000;
    t.signal_actions.table[10].mask = SignalFlags::SIGUSR2();
    current_add_signal(&mut t, SignalFlags::SIGUSR1());
    handle_signals(&mut t);
    assert_eq!(t.handling_sig, 10);
    current_add_signal(&mut t, SignalFlags::SIGUSR2());
    handle_signals(&mut t);
    assert_eq!(t.handling_sig, 10);
    assert!(t.signals.contains(SignalFlags::SIGUSR2()));
}

#[test]
fn kernel_signals_before_the_user_signal_are_handled() {
    let mut t = inner();
    t.signal_actions.table[10].handler = 0x5000;
    current_add_signal(&mut t, SignalFlags::SIGKILL());
    current_add_signal(&mut t, SignalFlags::SIGUSR1());
    current_add_signal(&mut t, SignalFlags::SIGSTOP());
    handle_signals(&mut t);
    assert!(t.killed);
    assert!(!t.frozen);
    assert!(t.signals.contains(SignalFlags::SIGSTOP()));
    assert_eq!(t.handling_sig, 10);
}

#[test]
fn open_flags() {
    assert_eq!(OpenFlags::from_bits(0x800), None);
    assert_eq!(OpenFlags::from_bits(0x201), Some(OpenFlags { bits: 0x201 }));
    assert_eq!(OpenFlags::RDONLY().read_write(), (true, false));
    assert_eq!(OpenFlags::WRONLY().read_write(), (false, true));
    assert_eq!(OpenFlags::RDWR().read_write(), (true, true));
    assert_eq!(OpenFlags { bits: OpenFlags::CREATE().bits | OpenFlags::TRUNC().bits }.read_write(), (true, true));
}
