use rcore_kernel::fs::{File, Stat};
use rcore_kernel::mm::memory_set::MemorySet;
use rcore_kernel::task::manager::{ExitAction, Kernel, IDLE_PID};
use rcore_kernel::task::pid::{kernel_stack_position, KernelStack, KERNEL_STACK_SIZE, TRAMPOLINE};
use rcore_kernel::task::task::{KernelEnv, LoadedElf, TaskControlBlock, TaskStatus};
use rcore_kernel::task::context::TaskContext;
use rcore_kernel::trap::context::TrapContext;
use std::sync::Arc;

struct Console;

impl File for Console {
    fn spec_readable(&self) -> bool {
        true
    }
    fn spec_writable(&self) -> bool {
        true
    }
    fn read_result(&self, before: Vec<u8>, after: Vec<u8>, n: usize) -> bool {
        n == 0 && after == before
    }
    fn write_result(&self, data: Vec<u8>, n: usize) -> bool {
        n == data.len()
    }
    fn stat_result(&self, before: Stat, after: Stat) -> bool {
        before.ino == after.ino
    }
    fn readable(&self) -> bool {
        true
    }
    fn writable(&self) -> bool {
        true
    }
    fn read(&self, _buf: &mut Vec<u8>) -> usize {
        0
    }
    fn write(&self, buf: &Vec<u8>) -> usize {
        buf.len()
    }
    fn stat(&self, _st: &mut Stat) -> usize {
        0
    }
}

fn env() -> KernelEnv {
    KernelEnv { kernel_satp: 0x8000_0000_0008_0200, trap_handler: 0xa000, trap_return: 0xb000, sstatus: 0x8000_0000_0000_0122 }
}

fn elf(token: usize) -> LoadedElf {
    LoadedElf { memory_set: MemorySet::new(token, 0x1000, 0x100), user_sp: 0x1100, entry_point: 0x10000 }
}

fn tcb(pid: usize) -> TaskControlBlock<Console> {
    TaskControlBlock::new(elf(pid + 100), pid, &env(), Arc::new(Console), Arc::new(Console), Arc::new(Console))
}

#[test]
fn kernel_stacks_lie_below_the_trampoline_with_guard_pages() {
    assert_eq!(kernel_stack_position(0), (TRAMPOLINE - KERNEL_STACK_SIZE, TRAMPOLINE));
    assert_eq!(kernel_stack_position(2).1, TRAMPOLINE - 2 * (KERNEL_STACK_SIZE + 4096));
    assert_eq!(KernelStack::new(1).get_top(), TRAMPOLINE - (KERNEL_STACK_SIZE + 4096));
}

#[test]
fn app_init_context_starts_in_user_mode() {
    let cx = TrapContext::app_init_context(0x10000, 0x2000, 0x8000_0000_0000_0122, 1, 2, 3);
    assert_eq!(cx.sepc, 0x10000);
    assert_eq!(cx.x[2], 0x2000);
    assert!(cx.x.iter().enumerate().all(|(i, r)| i == 2 || *r == 0));
    assert_eq!(cx.sstatus, 0x8000_0000_0000_0022);
    assert_eq!((cx.kernel_satp, cx.kernel_sp, cx.trap_handler), (1, 2, 3));
}

#[test]
fn set_sp_writes_x2() {
    let mut cx = TrapContext::app_init_context(0, 0, 0, 0, 0, 0);
    cx.set_sp(77);
    assert_eq!(cx.x[2], 77);
}

#[test]
fn task_contexts() {
    let cx = TaskContext::goto_trap_return(5, 6);
    assert_eq!((cx.ra, cx.sp, cx.s), (5, 6, [0; 12]));
    let z = TaskContext::zero_init();
    assert_eq!((z.ra, z.sp), (0, 0));
}

#[test]
fn new_task_is_ready_at_its_entry_point() {
    let t = tcb(3);
    assert_eq!(t.getpid(), 3);
    assert_eq!(t.inner.task_status, TaskStatus::Ready);
    assert!(!t.inner.is_zombie());
    assert_eq!(t.inner.trap_cx.sepc, 0x10000);
    assert_eq!(t.inner.trap_cx.x[2], 0x1100);
    assert_eq!(t.inner.trap_cx.kernel_sp, KernelStack::new(3).get_top());
    assert_eq!(t.inner.task_cx.ra, 0xb000);
    assert_eq!(t.inner.handling_sig, -1);
    assert_eq!(t.inner.get_user_token(), 103);
    assert_eq!(t.inner.base_size, 0x1100);
    assert!(t.inner.signal_actions.table.iter().all(|a| a.handler == 0 && a.mask.bits == 40));
}

#[test]
fn fork_copies_the_parent() {
    let mut parent = tcb(1);
    parent.inner.signal_mask.bits = 0b100;
    parent.inner.signals.bits = 0b1;
    parent.inner.trap_cx.x[10] = 9;
    parent.inner.memory_set.write_byte(0x1010, 3);
    let child = parent.fork(2, 202, &env());
    assert_eq!(parent.inner.children, vec![2]);
    assert_eq!(child.inner.parent, Some(1));
    assert_eq!(child.getpid(), 2);
    assert_eq!(child.inner.fd_table.len(), 3);
    assert!(Arc::ptr_eq(child.inner.fd_table[1].as_ref().unwrap(), parent.inner.fd_table[1].as_ref().unwrap()));
    assert_eq!(child.inner.signal_mask.bits, 0b100);
    assert_eq!(child.inner.signals.bits, 0);
    assert_eq!(child.inner.trap_cx.x[10], 9);
    assert_eq!(child.inner.trap_cx.kernel_sp, KernelStack::new(2).get_top());
    assert_eq!(child.inner.memory_set.stack, parent.inner.memory_set.stack);
    assert_eq!(child.inner.task_cx.sp, KernelStack::new(2).get_top());
    assert_eq!(child.inner.task_cx.s, [0; 12]);
    assert_eq!(child.inner.get_user_token(), 202);
    assert_eq!(parent.inner.get_user_token(), 101);
}

fn read_word(ms: &MemorySet, addr: usize) -> u64 {
    let i = addr - ms.stack_base;
    let mut w = 0u64;
    for k in (0..8).rev() {
        w = (w << 8) | ms.stack[i + k] as u64;
    }
    w
}

#[test]
fn exec_pushes_the_arguments() {
    let mut t = tcb(1);
    let args = vec![b"ls".to_vec(), b"-l".to_vec(), b"dir".to_vec()];
    t.exec(elf(55), &args, &env());
    let ms = &t.inner.memory_set;
    let top = 0x1100usize;
    let argv_base = top - 4 * 8;
    assert_eq!(t.inner.trap_cx.x[10], 3);
    assert_eq!(t.inner.trap_cx.x[11], argv_base);
    assert_eq!(read_word(ms, argv_base + 24), 0);
    let a0 = argv_base - 3;
    let a1 = a0 - 3;
    let a2 = a1 - 4;
    assert_eq!(read_word(ms, argv_base), a0 as u64);
    assert_eq!(read_word(ms, argv_base + 8), a1 as u64);
    assert_eq!(read_word(ms, argv_base + 16), a2 as u64);
    let s = |a: usize, n: usize| ms.stack[a - ms.stack_base..a - ms.stack_base + n].to_vec();
    assert_eq!(s(a0, 3), b"ls\0".to_vec());
    assert_eq!(s(a1, 3), b"-l\0".to_vec());
    assert_eq!(s(a2, 4), b"dir\0".to_vec());
    let sp = a2 - a2 % 8;
    assert_eq!(t.inner.base_size, sp);
    assert_eq!(t.inner.trap_cx.x[2], sp);
    assert_eq!(sp % 8, 0);
    assert_eq!(t.inner.get_user_token(), 55);
    assert_eq!(t.inner.fd_table.len(), 3);
}

#[test]
fn exec_without_arguments() {
    let mut t = tcb(1);
    t.exec(elf(56), &Vec::new(), &env());
    assert_eq!(t.inner.trap_cx.x[10], 0);
    assert_eq!(t.inner.trap_cx.x[11], 0x1100 - 8);
    assert_eq!(t.inner.trap_cx.x[2], 0x1100 - 8);
    assert_eq!(read_word(&t.inner.memory_set, 0x1100 - 8), 0);
}

fn kernel() -> Kernel<Console> {
    Kernel::new(tcb(IDLE_PID))
}

#[test]
fn fork_task_registers_and_queues_the_child() {
    let mut k = kernel();
    let c = k.fork_task(0, 301, &env());
    assert_eq!(c, 1);
    assert_eq!(k.tasks.len(), 2);
    assert_eq!(k.tasks[1].inner.parent, Some(0));
    assert_eq!(k.tasks[0].inner.children, vec![1]);
    assert_eq!(k.ready_queue.iter().copied().collect::<Vec<_>>(), vec![1]);
    assert_eq!(k.pid2task, vec![true, true]);
    assert_eq!(k.tasks[1].inner.get_user_token(), 301);
    assert_eq!(k.tasks[1].inner.exit_code, 0);
    assert!(!k.tasks[1].inner.killed && !k.tasks[1].inner.frozen);
    assert_eq!(k.tasks[1].inner.trap_cx.sepc, k.tasks[0].inner.trap_cx.sepc);
    assert_eq!(k.tasks[1].inner.trap_cx.kernel_sp, KernelStack::new(1).get_top());
}

#[test]
fn add_initproc_queues_process_zero() {
    let mut k = kernel();
    k.add_initproc();
    assert_eq!(k.ready_queue.front(), Some(&0));
}

#[test]
fn suspend_puts_the_task_back_in_the_queue() {
    let mut k = kernel();
    let c = k.fork_task(0, 301, &env());
    k.ready_queue.clear();
    k.current = Some(c);
    k.tasks[c].inner.task_status = TaskStatus::Running;
    assert_eq!(k.suspend_current_and_run_next(), c);
    assert_eq!(k.current, None);
    assert_eq!(k.tasks[c].inner.task_status, TaskStatus::Ready);
    assert_eq!(k.ready_queue.back(), Some(&c));
}

#[test]
fn exit_gives_children_to_the_initial_process() {
    let mut k = kernel();
    let a = k.fork_task(0, 301, &env());
    let b = k.fork_task(a, 302, &env());
    let c = k.fork_task(a, 303, &env());
    k.current = Some(a);
    let action = k.exit_current_and_run_next(7);
    assert_eq!(action, ExitAction::Schedule);
    assert_eq!(k.current, None);
    assert_eq!(k.tasks[a].inner.task_status, TaskStatus::Zombie);
    assert_eq!(k.tasks[a].inner.exit_code, 7);
    assert!(k.tasks[a].inner.children.is_empty());
    assert!(k.tasks[a].inner.fd_table.is_empty());
    assert!(k.tasks[a].inner.memory_set.stack.is_empty());
    assert_eq!(k.tasks[a].inner.parent, Some(0));
    assert_eq!(k.tasks[b].inner.parent, Some(0));
    assert_eq!(k.tasks[c].inner.parent, Some(0));
    assert_eq!(k.tasks[0].inner.children, vec![a, b, c]);
    assert!(!k.pid2task[a]);
}

#[test]
fn exit_of_the_initial_process_shuts_down() {
    let mut k = kernel();
    k.current = Some(IDLE_PID);
    assert_eq!(k.exit_current_and_run_next(0), ExitAction::Shutdown { success: true });
    k.current = Some(IDLE_PID);
    assert_eq!(k.exit_current_and_run_next(3), ExitAction::Shutdown { success: false });
    assert_eq!(k.tasks[0].inner.task_status, TaskStatus::Ready);
}

#[test]
fn take_current_task_empties_the_processor() {
    let mut k = kernel();
    k.current = Some(0);
    assert_eq!(k.take_current_task(), Some(0));
    assert_eq!(k.take_current_task(), None);
}

#[test]
fn run_next_takes_the_first_ready_task() {
    let mut k = kernel();
    assert_eq!(k.run_next(), None);
    let a = k.fork_task(0, 301, &env());
    k.add_initproc();
    assert_eq!(k.fetch_task(), Some(a));
    assert_eq!(k.run_next(), Some(0));
    assert_eq!(k.current, Some(0));
    assert_eq!(k.tasks[0].inner.task_status, TaskStatus::Running);
    assert!(k.ready_queue.is_empty());
    assert_eq!(k.fetch_task(), None);
}
