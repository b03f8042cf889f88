use rcore_kernel::fs::{File, Stat, StatMode};
use rcore_kernel::fs::inode::RootDirectory;
use rcore_kernel::mm::memory_set::MemorySet;
use rcore_kernel::syscall::fs::{
    sys_close, sys_dup, sys_fstat, sys_linkat, sys_open, sys_pipe, sys_read, sys_unlinkat, sys_write,
};
use rcore_kernel::task::task::{KernelEnv, LoadedElf, TaskControlBlock};
use std::sync::Arc;

#[derive(Debug, PartialEq)]
struct TestFile {
    name: &'static str,
    readable: bool,
    writable: bool,
}

impl File for TestFile {
    fn spec_readable(&self) -> bool {
        self.readable
    }
    fn spec_writable(&self) -> bool {
        self.writable
    }
    fn read_result(&self, before: Vec<u8>, after: Vec<u8>, n: usize) -> bool {
        n == before.len().min(3) && after[..n].iter().all(|b| *b == b'r') && after[n..] == before[n..]
    }
    fn write_result(&self, data: Vec<u8>, n: usize) -> bool {
        n == data.len()
    }
    fn stat_result(&self, _before: Stat, after: Stat) -> bool {
        after.ino == 7 && after.nlink == 1 && after.mode == StatMode::FILE()
    }
    fn readable(&self) -> bool {
        self.readable
    }
    fn writable(&self) -> bool {
        self.writable
    }
    fn read(&self, buf: &mut Vec<u8>) -> usize {
        let n = buf.len().min(3);
        for b in buf.iter_mut().take(n) {
            *b = b'r';
        }
        n
    }
    fn write(&self, buf: &Vec<u8>) -> usize {
        buf.len()
    }
    fn stat(&self, st: &mut Stat) -> usize {
        *st = Stat::new(0, 7, StatMode::FILE(), 1);
        0
    }
}

fn file(name: &'static str, readable: bool, writable: bool) -> Arc<TestFile> {
    Arc::new(TestFile { name, readable, writable })
}

fn env() -> KernelEnv {
    KernelEnv { kernel_satp: 0x8000_0000_0008_0200, trap_handler: 0x8020_1000, trap_return: 0x8020_2000, sstatus: 0x122 }
}

fn task() -> TaskControlBlock<TestFile> {
    let elf = LoadedElf { memory_set: MemorySet::new(5, 0x1000, 0x1000), user_sp: 0x2000, entry_point: 0x10000 };
    TaskControlBlock::new(elf, 1, &env(), file("stdin", true, false), file("stdout", false, true), file("stderr", false, true))
}

#[test]
fn new_task_has_three_console_descriptors() {
    let t = task();
    assert_eq!(t.inner.fd_table.len(), 3);
    assert_eq!(t.inner.fd_table[0].as_ref().unwrap().name, "stdin");
    assert_eq!(t.inner.fd_table[2].as_ref().unwrap().name, "stderr");
}

#[test]
fn open_takes_the_least_free_descriptor() {
    let mut t = task();
    assert_eq!(sys_open(&mut t.inner, Some(file("a", true, true))), 3);
    assert_eq!(sys_open(&mut t.inner, Some(file("b", true, true))), 4);
    assert_eq!(sys_close(&mut t.inner, 1), 0);
    assert_eq!(sys_open(&mut t.inner, Some(file("c", true, true))), 1);
    assert_eq!(t.inner.fd_table[1].as_ref().unwrap().name, "c");
    assert_eq!(t.inner.fd_table.len(), 5);
}

#[test]
fn open_of_nothing_fails() {
    let mut t = task();
    assert_eq!(sys_open::<TestFile>(&mut t.inner, None), -1);
    assert_eq!(t.inner.fd_table.len(), 3);
}

#[test]
fn close_rejects_free_and_out_of_range_descriptors() {
    let mut t = task();
    assert_eq!(sys_close(&mut t.inner, 7), -1);
    assert_eq!(sys_close(&mut t.inner, 0), 0);
    assert!(t.inner.fd_table[0].is_none());
    assert_eq!(sys_close(&mut t.inner, 0), -1);
}

#[test]
fn close_undoes_open() {
    let mut t = task();
    let fd = sys_open(&mut t.inner, Some(file("a", true, true)));
    assert_eq!(sys_close(&mut t.inner, fd as usize), 0);
    assert_eq!(t.inner.fd_table.len(), 4);
    assert!(t.inner.fd_table[3].is_none());
    assert_eq!(t.inner.fd_table[0].as_ref().unwrap().name, "stdin");
}

#[test]
fn dup_shares_the_file() {
    let mut t = task();
    assert_eq!(sys_dup(&mut t.inner, 1), 3);
    assert!(Arc::ptr_eq(t.inner.fd_table[1].as_ref().unwrap(), t.inner.fd_table[3].as_ref().unwrap()));
    assert_eq!(sys_dup(&mut t.inner, 9), -1);
    sys_close(&mut t.inner, 2);
    assert_eq!(sys_dup(&mut t.inner, 2), -1);
    assert_eq!(sys_dup(&mut t.inner, 0), 2);
}

#[test]
fn pipe_takes_two_descriptors_read_end_first() {
    let mut t = task();
    sys_close(&mut t.inner, 1);
    let (r, w) = sys_pipe(&mut t.inner, file("pipe-r", true, false), file("pipe-w", false, true));
    assert_eq!((r, w), (1, 3));
    assert_eq!(t.inner.fd_table[1].as_ref().unwrap().name, "pipe-r");
    assert_eq!(t.inner.fd_table[3].as_ref().unwrap().name, "pipe-w");
}

#[test]
fn write_checks_descriptor_and_rights() {
    let t = task();
    let buf = vec![1u8, 2, 3, 4];
    assert_eq!(sys_write(&t.inner, 1, &buf), 4);
    assert_eq!(sys_write(&t.inner, 0, &buf), -1);
    assert_eq!(sys_write(&t.inner, 3, &buf), -1);
}

#[test]
fn read_checks_descriptor_and_rights() {
    let t = task();
    let mut buf = vec![0u8; 5];
    assert_eq!(sys_read(&t.inner, 0, &mut buf), 3);
    assert_eq!(buf, vec![b'r', b'r', b'r', 0, 0]);
    let mut buf2 = vec![0u8; 5];
    assert_eq!(sys_read(&t.inner, 1, &mut buf2), -1);
    assert_eq!(sys_read(&t.inner, 10, &mut buf2), -1);
    assert_eq!(buf2, vec![0u8; 5]);
}

#[test]
fn fstat_refuses_consoles_and_free_descriptors() {
    let mut t = task();
    let mut st = Stat::new(9, 9, StatMode::NULL(), 9);
    assert_eq!(st.pad, [0; 7]);
    assert_eq!(sys_fstat(&t.inner, 1, &mut st), -1);
    assert_eq!(sys_fstat(&t.inner, -4, &mut st), -1);
    assert_eq!(st.ino, 9);
    sys_open(&mut t.inner, Some(file("a", true, true)));
    sys_open(&mut t.inner, Some(file("b", true, true)));
    sys_close(&mut t.inner, 3);
    assert_eq!(sys_fstat(&t.inner, 3, &mut st), -1);
    assert_eq!(sys_fstat(&t.inner, 4, &mut st), 0);
    assert_eq!(st.ino, 7);
    assert_eq!(st.nlink, 1);
    assert_eq!(st.mode, StatMode::FILE());
}

#[test]
fn linkat_and_unlinkat() {
    let mut dir = RootDirectory::new();
    let a = b"a".to_vec();
    let b = b"b".to_vec();
    assert_eq!(sys_linkat(&mut dir, &a, &b), -1);
    dir.entries.push(rcore_kernel::fs::inode::DirEntry { name: a.clone(), inode_id: 3 });
    assert_eq!(sys_linkat(&mut dir, &a, &a), -1);
    assert_eq!(sys_linkat(&mut dir, &a, &b), 0);
    assert_eq!(dir.search_file(&b), Some(3));
    assert_eq!(dir.entries.len(), 2);
    assert_eq!(sys_unlinkat(&mut dir, &b), 0);
    assert_eq!(dir.entries.len(), 1);
    assert_eq!(dir.search_file(&b), None);
    assert_eq!(sys_unlinkat(&mut dir, &b), -1);
    assert_eq!(dir.search_file(&a), Some(3));
}
