//! `mmap` and `munmap`.
use vstd::prelude::*;
use crate::mm::memory_set::{MemorySet, PAGE_SIZE, PERM_R, PERM_W, PERM_X, PERM_U, in_range, range_map, mmap_perm, lemma_mmap_perm_rights};

verus! {

/// Whether `mmap(start, len, prot)` is accepted on `ms`: the range ends
/// within the address space, `start` is page aligned, `prot` asks for some
/// of read, write and execute and nothing else, and no page of the range is
/// mapped yet.
pub open spec fn mmap_accepts(ms: MemorySet, start: usize, len: usize, prot: usize) -> bool {
    &&& start + len <= usize::MAX
    &&& start % PAGE_SIZE == 0
    &&& prot & !0x7usize == 0
    &&& prot & 0x7usize != 0
    &&& forall|vpn: usize| #[trigger] in_range(start, len, vpn) ==> !ms.mapping().contains_key(vpn)
}

/// Whether `munmap(start, len)` is accepted on `ms`: the range ends within
/// the address space and every page of it is mapped.
pub open spec fn munmap_accepts(ms: MemorySet, start: usize, len: usize) -> bool {
    &&& start + len <= usize::MAX
    &&& forall|vpn: usize| #[trigger] in_range(start, len, vpn) ==> ms.mapping().contains_key(vpn)
}

/// Maps the pages of `[start, start + len)` with the rights `prot` asks for
/// (bit 0 read, bit 1 write, bit 2 execute); 0 on success, -1 when refused,
/// also when the range runs past the end of the address space.
pub fn sys_mmap(memory_set: &mut MemorySet, start: usize, len: usize, prot: usize) -> (r: isize)
    requires
        old(memory_set).wf(),
    ensures
        final(memory_set).wf(),
        mmap_accepts(*old(memory_set), start, len, prot) ==> {
            &&& r == 0
            &&& final(memory_set).mapping() == old(memory_set).mapping().union_prefer_right(
                range_map(start, len, mmap_perm(prot)),
            )
            &&& final(memory_set).token == old(memory_set).token
            &&& final(memory_set).stack_base == old(memory_set).stack_base
            &&& final(memory_set).stack@ == old(memory_set).stack@
        },
        !mmap_accepts(*old(memory_set), start, len, prot) ==> r == -1 && *final(memory_set) == *old(
            memory_set,
        ),
{
    if len > usize::MAX - start {
        return -1;
    }
    if start % PAGE_SIZE != 0 || prot & !0x7 != 0 || prot & 0x7 == 0 || memory_set.is_map(start, len) == -1 {
        return -1;
    }
    memory_set.map(start, len, prot)
}

/// Unmaps the pages of `[start, start + len)`; 0 on success, -1 when one of
/// them is not mapped or the range runs past the end of the address space.
pub fn sys_munmap(memory_set: &mut MemorySet, start: usize, len: usize) -> (r: isize)
    requires
        old(memory_set).wf(),
    ensures
        final(memory_set).wf(),
        munmap_accepts(*old(memory_set), start, len) ==> {
            &&& r == 0
            &&& final(memory_set).mapping() == old(memory_set).mapping().remove_keys(
                Set::new(|vpn: usize| in_range(start, len, vpn)),
            )
            &&& final(memory_set).token == old(memory_set).token
            &&& final(memory_set).stack_base == old(memory_set).stack_base
            &&& final(memory_set).stack@ == old(memory_set).stack@
        },
        !munmap_accepts(*old(memory_set), start, len) ==> r == -1 && *final(memory_set) == *old(
            memory_set,
        ),
{
    if len > usize::MAX - start {
        return -1;
    }
    if memory_set.is_unmap(start, len) == -1 {
        return -1;
    }
    memory_set.unmap(start, len)
}

/// Unmapping a range right after mapping it gives back the mapping there
/// was: `munmap` undoes `mmap`.
pub proof fn lemma_munmap_undoes_mmap(mapping: Map<usize, u8>, start: usize, len: usize, perm: u8)
    requires
        forall|vpn: usize| #[trigger] in_range(start, len, vpn) ==> !mapping.contains_key(vpn),
    ensures
        mapping.union_prefer_right(range_map(start, len, perm)).remove_keys(
            Set::new(|vpn: usize| in_range(start, len, vpn)),
        ) == mapping,
{
    assert(mapping.union_prefer_right(range_map(start, len, perm)).remove_keys(
        Set::new(|vpn: usize| in_range(start, len, vpn)),
    ) =~= mapping);
}

/// After a successful `mmap` every page of the range is mapped, so the
/// same `munmap` is accepted.
pub proof fn lemma_mmap_then_munmap_accepted(mapping: Map<usize, u8>, start: usize, len: usize, perm: u8)
    ensures
        forall|vpn: usize|
            #[trigger] in_range(start, len, vpn) ==> mapping.union_prefer_right(
                range_map(start, len, perm),
            ).contains_key(vpn),
{
}


/// After an accepted `mmap(start, len, prot)` every page of the range is
/// mapped, readable exactly when `prot` has bit 0, writable exactly when it
/// has bit 1, executable exactly when it has bit 2, and user-accessible.
pub proof fn lemma_mmap_page_rights(mapping: Map<usize, u8>, start: usize, len: usize, prot: usize, vpn: usize)
    requires
        prot & !0x7usize == 0,
        in_range(start, len, vpn),
    ensures
        ({
            let m = mapping.union_prefer_right(range_map(start, len, mmap_perm(prot)));
            &&& m.contains_key(vpn)
            &&& (m[vpn] & PERM_R != 0) == (prot & 1 != 0)
            &&& (m[vpn] & PERM_W != 0) == (prot & 2 != 0)
            &&& (m[vpn] & PERM_X != 0) == (prot & 4 != 0)
            &&& m[vpn] & PERM_U != 0
        }),
{
    lemma_mmap_perm_rights(prot);
}

} // verus!
