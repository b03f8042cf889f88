use rcore_kernel::mm::memory_set::{MemorySet, PAGE_SIZE, PERM_R, PERM_U, PERM_W, PERM_X};
use rcore_kernel::syscall::memory::{sys_mmap, sys_munmap};

fn space() -> MemorySet {
    MemorySet::new(1, 0x1000, 64)
}

#[test]
fn mmap_maps_every_touched_page_with_user_rights() {
    let mut ms = space();
    assert_eq!(sys_mmap(&mut ms, 0x10000, PAGE_SIZE + 1, 0b011), 0);
    assert!(ms.is_mapped(0x10));
    assert!(ms.is_mapped(0x11));
    assert!(!ms.is_mapped(0x12));
    assert_eq!(ms.pages.len(), 2);
    assert!(ms.pages.iter().all(|p| p.perm == PERM_R | PERM_W | PERM_U));
}

#[test]
fn mmap_execute_only() {
    let mut ms = space();
    assert_eq!(sys_mmap(&mut ms, 0x4000, PAGE_SIZE, 0b100), 0);
    assert_eq!(ms.pages[0].perm, PERM_X | PERM_U);
    assert_eq!(ms.pages[0].vpn, 4);
}

#[test]
fn mmap_of_no_bytes_maps_nothing() {
    let mut ms = space();
    assert_eq!(sys_mmap(&mut ms, 0x4000, 0, 0b001), 0);
    assert_eq!(ms.pages.len(), 0);
}

#[test]
fn mmap_refuses_misaligned_start_and_bad_rights() {
    let mut ms = space();
    assert_eq!(sys_mmap(&mut ms, 0x4001, PAGE_SIZE, 0b001), -1);
    assert_eq!(sys_mmap(&mut ms, 0x4000, PAGE_SIZE, 0), -1);
    assert_eq!(sys_mmap(&mut ms, 0x4000, PAGE_SIZE, 0b1001), -1);
    assert_eq!(ms.pages.len(), 0);
}

#[test]
fn mmap_refuses_overlap() {
    let mut ms = space();
    assert_eq!(sys_mmap(&mut ms, 0x4000, 2 * PAGE_SIZE, 0b001), 0);
    assert_eq!(sys_mmap(&mut ms, 0x5000, 2 * PAGE_SIZE, 0b001), -1);
    assert_eq!(ms.pages.len(), 2);
    assert_eq!(sys_mmap(&mut ms, 0x6000, PAGE_SIZE, 0b001), 0);
    assert_eq!(ms.pages.len(), 3);
}

#[test]
fn ranges_past_the_end_of_the_address_space_are_refused() {
    let mut ms = space();
    assert_eq!(sys_mmap(&mut ms, 0x4000, usize::MAX, 0b001), -1);
    assert_eq!(sys_munmap(&mut ms, usize::MAX - 0xfff, 0x2000), -1);
    assert_eq!(ms.pages.len(), 0);
}

#[test]
fn munmap_undoes_mmap() {
    let mut ms = space();
    assert_eq!(sys_mmap(&mut ms, 0x8000, PAGE_SIZE, 0b010), 0);
    assert_eq!(sys_mmap(&mut ms, 0x4000, 3 * PAGE_SIZE, 0b001), 0);
    assert_eq!(sys_munmap(&mut ms, 0x4000, 3 * PAGE_SIZE), 0);
    assert_eq!(ms.pages.len(), 1);
    assert!(ms.is_mapped(8));
    assert!(!ms.is_mapped(4) && !ms.is_mapped(5) && !ms.is_mapped(6));
}

#[test]
fn munmap_refuses_unmapped_pages() {
    let mut ms = space();
    assert_eq!(sys_mmap(&mut ms, 0x4000, PAGE_SIZE, 0b001), 0);
    assert_eq!(sys_munmap(&mut ms, 0x4000, 2 * PAGE_SIZE), -1);
    assert!(ms.is_mapped(4));
    assert_eq!(sys_munmap(&mut ms, 0x4000, PAGE_SIZE), 0);
    assert_eq!(sys_munmap(&mut ms, 0x4000, PAGE_SIZE), -1);
}

#[test]
fn is_map_and_is_unmap_report_conflicts() {
    let mut ms = space();
    assert_eq!(ms.is_map(0x4000, PAGE_SIZE), 0);
    assert_eq!(ms.is_unmap(0x4000, PAGE_SIZE), -1);
    ms.map(0x4000, PAGE_SIZE, 1);
    assert_eq!(ms.is_map(0x3000, 2 * PAGE_SIZE), -1);
    assert_eq!(ms.is_unmap(0x4000, 10), 0);
}

#[test]
fn stack_words_are_little_endian() {
    let mut ms = space();
    ms.write_word(0x1008, 0x0102_0304_0506_0708);
    assert_eq!(&ms.stack[8..16], &[8, 7, 6, 5, 4, 3, 2, 1]);
    ms.write_bytes(0x1000, &vec![9, 9]);
    assert_eq!(&ms.stack[0..3], &[9, 9, 0]);
}

#[test]
fn recycle_frees_pages_and_stack() {
    let mut ms = space();
    sys_mmap(&mut ms, 0x4000, PAGE_SIZE, 1);
    ms.recycle_data_pages();
    assert_eq!(ms.pages.len(), 0);
    assert_eq!(ms.stack.len(), 0);
    assert_eq!(ms.token(), 1);
}

#[test]
fn copied_address_space_is_equal() {
    let mut ms = space();
    sys_mmap(&mut ms, 0x4000, PAGE_SIZE, 3);
    ms.write_byte(0x1003, 42);
    let copy = MemorySet::from_existed_user(&ms, 2);
    assert_eq!(copy.stack, ms.stack);
    assert_eq!(copy.pages.len(), 1);
    assert_eq!(copy.token, 2);
}
