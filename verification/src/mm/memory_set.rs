//! Page mappings of a user address space and the bytes of its stack.
use vstd::prelude::*;

verus! {

/// Bytes in a page.
pub const PAGE_SIZE: usize = 4096;

/// Page permission bits: readable, writable, executable, user-accessible.
pub const PERM_R: u8 = 2;
pub const PERM_W: u8 = 4;
pub const PERM_X: u8 = 8;
pub const PERM_U: u8 = 16;

/// One virtual page and its permission bits.
#[derive(Clone, Copy, PartialEq, Eq, Structural)]
pub struct PageMapping {
    pub vpn: usize,
    pub perm: u8,
}

/// Whether some mapping in `pages` maps the page `vpn`.
pub open spec fn has_vpn(pages: Seq<PageMapping>, vpn: usize) -> bool {
    exists|i: int| 0 <= i < pages.len() && #[trigger] pages[i].vpn == vpn
}

/// The permission of the mapping of `vpn` in `pages`.
pub open spec fn perm_in(pages: Seq<PageMapping>, vpn: usize) -> u8 {
    pages[choose|i: int| 0 <= i < pages.len() && #[trigger] pages[i].vpn == vpn].perm
}

/// The pages of `pages` with their permissions.
pub open spec fn page_map(pages: Seq<PageMapping>) -> Map<usize, u8> {
    Map::new(|vpn: usize| has_vpn(pages, vpn), |vpn: usize| perm_in(pages, vpn))
}

/// No page is mapped twice.
pub open spec fn distinct_vpns(pages: Seq<PageMapping>) -> bool {
    forall|i: int, j: int|
        0 <= i < pages.len() && 0 <= j < pages.len() && i != j ==> #[trigger] pages[i].vpn
            != #[trigger] pages[j].vpn
}

/// The first page of the range that starts at `start`.
pub open spec fn start_vpn(start: usize) -> usize {
    (start / PAGE_SIZE) as usize
}

/// The page after the last page that the range `[start, start + len)` touches.
pub open spec fn end_vpn(start: usize, len: usize) -> usize {
    let end = start + len;
    if end == 0 {
        0usize
    } else {
        ((end - 1) / (PAGE_SIZE as int) + 1) as usize
    }
}

/// Whether `vpn` is one of the pages of `[start, start + len)`.
pub open spec fn in_range(start: usize, len: usize, vpn: usize) -> bool {
    start_vpn(start) <= vpn < end_vpn(start, len)
}

/// The pages of `[start, start + len)`, each with permission `perm`.
pub open spec fn range_map(start: usize, len: usize, perm: u8) -> Map<usize, u8> {
    Map::new(|vpn: usize| in_range(start, len, vpn), |vpn: usize| perm)
}

/// The permission that `mmap` gives for the protection bits `prot`
/// (bit 0 read, bit 1 write, bit 2 execute), always user-accessible.
pub open spec fn mmap_perm(prot: usize) -> u8 {
    (((prot as u8) << 1u8) | PERM_U) as u8
}

/// The rights that `mmap` gives follow the protection bits one for one:
/// readable exactly with bit 0, writable exactly with bit 1, executable
/// exactly with bit 2, always user-accessible, and nothing else.
pub proof fn lemma_mmap_perm_rights(prot: usize)
    requires
        prot & !0x7usize == 0,
    ensures
        (mmap_perm(prot) & PERM_R != 0) == (prot & 1 != 0),
        (mmap_perm(prot) & PERM_W != 0) == (prot & 2 != 0),
        (mmap_perm(prot) & PERM_X != 0) == (prot & 4 != 0),
        mmap_perm(prot) & PERM_U != 0,
        mmap_perm(prot) & !(PERM_R | PERM_W | PERM_X | PERM_U) == 0,
{
    assert(prot & !0x7usize == 0 ==> prot < 8) by (bit_vector);
    let p = prot as u8;
    assert(p == prot);
    assert(p < 8 ==> {
        &&& ((((p << 1u8) | 16u8) & 2u8) != 0) == (p & 1 != 0)
        &&& ((((p << 1u8) | 16u8) & 4u8) != 0) == (p & 2 != 0)
        &&& ((((p << 1u8) | 16u8) & 8u8) != 0) == (p & 4 != 0)
        &&& (((p << 1u8) | 16u8) & 16u8) != 0
        &&& (((p << 1u8) | 16u8) & !30u8) == 0
    }) by (bit_vector);
    assert(prot < 8 ==> ((prot & 1 != 0) == ((prot as u8) & 1 != 0) && (prot & 2 != 0) == ((prot as u8) & 2
        != 0) && (prot & 4 != 0) == ((prot as u8) & 4 != 0))) by (bit_vector);
    assert(mmap_perm(prot) == ((p << 1u8) | 16u8));
    assert((2u8 | 4u8 | 8u8 | 16u8) == 30u8) by (bit_vector);
}

proof fn lemma_perm_of_index(pages: Seq<PageMapping>, i: int)
    requires
        distinct_vpns(pages),
        0 <= i < pages.len(),
    ensures
        has_vpn(pages, pages[i].vpn),
        perm_in(pages, pages[i].vpn) == pages[i].perm,
{
    let v = pages[i].vpn;
    assert(pages[i].vpn == v);
    let j = choose|j: int| 0 <= j < pages.len() && #[trigger] pages[j].vpn == v;
    assert(pages[j].vpn == v);
}

proof fn lemma_push(pages: Seq<PageMapping>, m: PageMapping)
    requires
        distinct_vpns(pages),
        !has_vpn(pages, m.vpn),
    ensures
        distinct_vpns(pages.push(m)),
        page_map(pages.push(m)) == page_map(pages).insert(m.vpn, m.perm),
{
    let p = pages.push(m);
    assert forall|i: int, j: int|
        0 <= i < p.len() && 0 <= j < p.len() && i != j implies #[trigger] p[i].vpn
            != #[trigger] p[j].vpn by {
        if i < pages.len() && j < pages.len() {
            assert(pages[i] == p[i] && pages[j] == p[j]);
        } else if i < pages.len() {
            assert(pages[i].vpn == p[i].vpn);
        } else {
            assert(pages[j].vpn == p[j].vpn);
        }
    }
    assert forall|v: usize| #[trigger] has_vpn(p, v) == (has_vpn(pages, v) || v == m.vpn) by {
        if has_vpn(pages, v) {
            let i = choose|i: int| 0 <= i < pages.len() && #[trigger] pages[i].vpn == v;
            assert(p[i].vpn == v);
        }
        if v == m.vpn {
            assert(p[pages.len() as int].vpn == v);
        }
        if has_vpn(p, v) && v != m.vpn {
            let i = choose|i: int| 0 <= i < p.len() && #[trigger] p[i].vpn == v;
            assert(i < pages.len());
            assert(pages[i].vpn == v);
        }
    }
    assert forall|v: usize| has_vpn(p, v) implies #[trigger] perm_in(p, v) == page_map(
        pages,
    ).insert(m.vpn, m.perm)[v] by {
        if v == m.vpn {
            lemma_perm_of_index(p, pages.len() as int);
        } else {
            let i = choose|i: int| 0 <= i < pages.len() && #[trigger] pages[i].vpn == v;
            lemma_perm_of_index(pages, i);
            assert(p[i] == pages[i]);
            lemma_perm_of_index(p, i);
        }
    }
    assert(page_map(p) =~= page_map(pages).insert(m.vpn, m.perm));
}

proof fn lemma_remove(pages: Seq<PageMapping>, i: int)
    requires
        distinct_vpns(pages),
        0 <= i < pages.len(),
    ensures
        distinct_vpns(pages.remove(i)),
        page_map(pages.remove(i)) == page_map(pages).remove(pages[i].vpn),
{
    let p = pages.remove(i);
    let v0 = pages[i].vpn;
    assert forall|a: int, b: int|
        0 <= a < p.len() && 0 <= b < p.len() && a != b implies #[trigger] p[a].vpn
            != #[trigger] p[b].vpn by {
        let a2 = if a < i { a } else { a + 1 };
        let b2 = if b < i { b } else { b + 1 };
        assert(p[a] == pages[a2] && p[b] == pages[b2]);
    }
    assert forall|v: usize| #[trigger] has_vpn(p, v) == (has_vpn(pages, v) && v != v0) by {
        if has_vpn(p, v) {
            let a = choose|a: int| 0 <= a < p.len() && #[trigger] p[a].vpn == v;
            let a2 = if a < i { a } else { a + 1 };
            assert(pages[a2].vpn == v);
            assert(a2 != i);
        }
        if has_vpn(pages, v) && v != v0 {
            let a = choose|a: int| 0 <= a < pages.len() && #[trigger] pages[a].vpn == v;
            assert(a != i);
            let a2 = if a < i { a } else { a - 1 };
            assert(p[a2].vpn == v);
        }
    }
    assert forall|v: usize| has_vpn(p, v) implies #[trigger] perm_in(p, v) == page_map(
        pages,
    )[v] by {
        let a = choose|a: int| 0 <= a < p.len() && #[trigger] p[a].vpn == v;
        let a2 = if a < i { a } else { a + 1 };
        assert(p[a] == pages[a2]);
        lemma_perm_of_index(p, a);
        lemma_perm_of_index(pages, a2);
    }
    assert(page_map(p) =~= page_map(pages).remove(v0));
}

/// The user address space of a task: its address-space token, the pages it
/// has mapped on request, and the bytes of its user stack, which start at
/// `stack_base`.
pub struct MemorySet {
    pub token: usize,
    pub pages: Vec<PageMapping>,
    pub stack_base: usize,
    pub stack: Vec<u8>,
}

impl MemorySet {
    pub open spec fn wf(&self) -> bool {
        &&& distinct_vpns(self.pages@)
        &&& self.stack_base + self.stack@.len() <= usize::MAX
    }

    /// The mapped pages with their permissions.
    pub open spec fn mapping(&self) -> Map<usize, u8> {
        page_map(self.pages@)
    }

    /// The stack byte at address `addr`.
    pub open spec fn stack_byte(&self, addr: int) -> u8 {
        self.stack@[addr - self.stack_base]
    }

    /// Whether `[addr, addr + n)` lies in the stack.
    pub open spec fn in_stack(&self, addr: int, n: int) -> bool {
        self.stack_base <= addr && addr + n <= self.stack_base + self.stack@.len()
    }

    /// An address space with no mapped page and a zeroed stack of
    /// `stack_size` bytes starting at `stack_base`.
    pub fn new(token: usize, stack_base: usize, stack_size: usize) -> (ms: Self)
        requires
            stack_base + stack_size <= usize::MAX,
        ensures
            ms.wf(),
            ms.token == token,
            ms.mapping() == Map::<usize, u8>::empty(),
            ms.stack_base == stack_base,
            ms.stack@ == Seq::new(stack_size as nat, |i: int| 0u8),
    {
        let mut stack: Vec<u8> = Vec::new();
        let mut i: usize = 0;
        while i < stack_size
            invariant
                i <= stack_size,
                stack@ == Seq::new(i as nat, |k: int| 0u8),
            decreases stack_size - i,
        {
            stack.push(0u8);
            i = i + 1;
            assert(stack@ =~= Seq::new(i as nat, |k: int| 0u8));
        }
        let ms = MemorySet { token, pages: Vec::new(), stack_base, stack };
        assert(ms.mapping() =~= Map::<usize, u8>::empty());
        ms
    }

    /// The token of the address space, written to `satp` to switch to it.
    pub fn token(&self) -> (t: usize)
        ensures
            t == self.token,
    {
        self.token
    }

    /// A copy of a user address space, as made for a forked child, in the
    /// new page table whose token is `token`.
    pub fn from_existed_user(user_space: &MemorySet, token: usize) -> (ms: MemorySet)
        ensures
            ms.token == token,
            ms.pages@ == user_space.pages@,
            ms.stack_base == user_space.stack_base,
            ms.stack@ == user_space.stack@,
    {
        MemorySet {
            token,
            pages: user_space.pages.clone(),
            stack_base: user_space.stack_base,
            stack: user_space.stack.clone(),
        }
    }

    /// Frees the pages of the address space; the token stays.
    pub fn recycle_data_pages(&mut self)
        ensures
            final(self).wf(),
            final(self).token == old(self).token,
            final(self).mapping() == Map::<usize, u8>::empty(),
            final(self).stack@.len() == 0,
            final(self).stack_base == old(self).stack_base,
    {
        self.pages.clear();
        self.stack.clear();
        assert(self.mapping() =~= Map::<usize, u8>::empty());
    }

    /// Whether the page `vpn` is mapped.
    pub fn is_mapped(&self, vpn: usize) -> (r: bool)
        ensures
            r == self.mapping().contains_key(vpn),
    {
        let mut i: usize = 0;
        while i < self.pages.len()
            invariant
                i <= self.pages@.len(),
                forall|k: int| 0 <= k < i ==> self.pages@[k].vpn != vpn,
            decreases self.pages@.len() - i,
        {
            if self.pages[i].vpn == vpn {
                assert(self.pages@[i as int].vpn == vpn);
                return true;
            }
            i = i + 1;
        }
        false
    }

    /// Where the mapping of `vpn` is held.
    fn index_of(&self, vpn: usize) -> (r: usize)
        requires
            self.mapping().contains_key(vpn),
        ensures
            r < self.pages@.len(),
            self.pages@[r as int].vpn == vpn,
    {
        let mut i: usize = 0;
        while i < self.pages.len()
            invariant
                i <= self.pages@.len(),
                has_vpn(self.pages@, vpn),
                forall|k: int| 0 <= k < i ==> self.pages@[k].vpn != vpn,
            decreases self.pages@.len() - i,
        {
            if self.pages[i].vpn == vpn {
                return i;
            }
            i = i + 1;
        }
        proof {
            let k = choose|k: int| 0 <= k < self.pages@.len() && #[trigger] self.pages@[k].vpn == vpn;
            assert(self.pages@[k].vpn == vpn);
        }
        0
    }

    /// 0 when no page of `[start, start + len)` is mapped, -1 otherwise.
    pub fn is_map(&self, start: usize, len: usize) -> (r: isize)
        requires
            start + len <= usize::MAX,
        ensures
            r == 0 || r == -1,
            r == 0 <==> forall|vpn: usize|
                #[trigger] in_range(start, len, vpn) ==> !self.mapping().contains_key(vpn),
    {
        let end = start + len;
        let first = start / PAGE_SIZE;
        let last = if end == 0 { 0 } else { (end - 1) / PAGE_SIZE + 1 };
        let mut vpn = first;
        while vpn < last
            invariant
                first == start_vpn(start),
                last == end_vpn(start, len),
                first <= vpn,
                forall|v: usize|
                    first <= v < vpn ==> !#[trigger] self.mapping().contains_key(v),
            decreases last - vpn,
        {
            if self.is_mapped(vpn) {
                assert(in_range(start, len, vpn));
                return -1;
            }
            vpn = vpn + 1;
        }
        0
    }

    /// 0 when every page of `[start, start + len)` is mapped, -1 otherwise.
    pub fn is_unmap(&self, start: usize, len: usize) -> (r: isize)
        requires
            start + len <= usize::MAX,
        ensures
            r == 0 || r == -1,
            r == 0 <==> forall|vpn: usize|
                #[trigger] in_range(start, len, vpn) ==> self.mapping().contains_key(vpn),
    {
        let end = start + len;
        let first = start / PAGE_SIZE;
        let last = if end == 0 { 0 } else { (end - 1) / PAGE_SIZE + 1 };
        let mut vpn = first;
        while vpn < last
            invariant
                first == start_vpn(start),
                last == end_vpn(start, len),
                first <= vpn,
                forall|v: usize|
                    first <= v < vpn ==> #[trigger] self.mapping().contains_key(v),
            decreases last - vpn,
        {
            if !self.is_mapped(vpn) {
                assert(in_range(start, len, vpn));
                return -1;
            }
            vpn = vpn + 1;
        }
        0
    }

    /// Maps every page of `[start, start + len)` with the permission that
    /// the protection bits `prot` give; none of them may be mapped yet.
    pub fn map(&mut self, start: usize, len: usize, prot: usize) -> (r: isize)
        requires
            old(self).wf(),
            start + len <= usize::MAX,
            forall|vpn: usize|
                #[trigger] in_range(start, len, vpn) ==> !old(self).mapping().contains_key(vpn),
        ensures
            r == 0,
            final(self).wf(),
            final(self).mapping() == old(self).mapping().union_prefer_right(
                range_map(start, len, mmap_perm(prot)),
            ),
            final(self).token == old(self).token,
            final(self).stack_base == old(self).stack_base,
            final(self).stack@ == old(self).stack@,
    {
        let perm: u8 = ((#[verifier::truncate] (prot as u8)) << 1u8) | PERM_U;
        let end = start + len;
        let first = start / PAGE_SIZE;
        let last = if end == 0 { 0 } else { (end - 1) / PAGE_SIZE + 1 };
        let ghost old_map = self.mapping();
        let mut vpn = first;
        while vpn < last
            invariant
                first == start_vpn(start),
                last == end_vpn(start, len),
                first <= vpn,
                vpn == first || vpn <= last,
                perm == mmap_perm(prot),
                distinct_vpns(self.pages@),
                self.stack_base + self.stack@.len() <= usize::MAX,
                forall|v: usize| #[trigger] in_range(start, len, v) ==> !old_map.contains_key(v),
                self.mapping() == old_map.union_prefer_right(
                    Map::new(|v: usize| first <= v < vpn, |v: usize| perm),
                ),
                self.token == old(self).token,
                self.stack_base == old(self).stack_base,
                self.stack@ == old(self).stack@,
            decreases last - vpn,
        {
            assert(in_range(start, len, vpn));
            assert(!self.mapping().contains_key(vpn));
            proof {
                lemma_push(self.pages@, PageMapping { vpn, perm });
            }
            self.pages.push(PageMapping { vpn, perm });
            vpn = vpn + 1;
            assert(self.mapping() =~= old_map.union_prefer_right(
                Map::new(|v: usize| first <= v < vpn, |v: usize| perm),
            ));
        }
        assert(Map::new(|v: usize| first <= v < vpn, |v: usize| perm) =~= range_map(
            start,
            len,
            mmap_perm(prot),
        ));
        0
    }

    /// Unmaps every page of `[start, start + len)`; all of them must be mapped.
    pub fn unmap(&mut self, start: usize, len: usize) -> (r: isize)
        requires
            old(self).wf(),
            start + len <= usize::MAX,
            forall|vpn: usize|
                #[trigger] in_range(start, len, vpn) ==> old(self).mapping().contains_key(vpn),
        ensures
            r == 0,
            final(self).wf(),
            final(self).mapping() == old(self).mapping().remove_keys(
                Set::new(|vpn: usize| in_range(start, len, vpn)),
            ),
            final(self).token == old(self).token,
            final(self).stack_base == old(self).stack_base,
            final(self).stack@ == old(self).stack@,
    {
        let end = start + len;
        let first = start / PAGE_SIZE;
        let last = if end == 0 { 0 } else { (end - 1) / PAGE_SIZE + 1 };
        let ghost old_map = self.mapping();
        let mut vpn = first;
        while vpn < last
            invariant
                first == start_vpn(start),
                last == end_vpn(start, len),
                first <= vpn,
                vpn == first || vpn <= last,
                distinct_vpns(self.pages@),
                self.stack_base + self.stack@.len() <= usize::MAX,
                forall|v: usize| #[trigger] in_range(start, len, v) ==> old_map.contains_key(v),
                self.mapping() == old_map.remove_keys(Set::new(|v: usize| first <= v < vpn)),
                self.token == old(self).token,
                self.stack_base == old(self).stack_base,
                self.stack@ == old(self).stack@,
            decreases last - vpn,
        {
            assert(in_range(start, len, vpn));
            assert(self.mapping().contains_key(vpn));
            let i = self.index_of(vpn);
            proof {
                lemma_remove(self.pages@, i as int);
            }
            self.pages.remove(i);
            vpn = vpn + 1;
            assert(self.mapping() =~= old_map.remove_keys(Set::new(|v: usize| first <= v < vpn)));
        }
        assert(Set::new(|v: usize| first <= v < vpn) =~= Set::new(
            |v: usize| in_range(start, len, v),
        ));
        0
    }
}


/// Whether the eight stack bytes at `addr` hold `w`, least significant first.
pub open spec fn word_at(ms: MemorySet, addr: int, w: u64) -> bool {
    forall|k: int| 0 <= k < 8 ==> #[trigger] ms.stack_byte(addr + k) == (w >> ((8 * k) as u64)) as u8
}

impl MemorySet {
    /// Stores the byte `b` at the stack address `addr`.
    pub fn write_byte(&mut self, addr: usize, b: u8)
        requires
            old(self).in_stack(addr as int, 1),
        ensures
            final(self).stack@ == old(self).stack@.update(addr - old(self).stack_base, b),
            final(self).stack_base == old(self).stack_base,
            final(self).token == old(self).token,
            final(self).pages@ == old(self).pages@,
    {
        let i = addr - self.stack_base;
        self.stack.set(i, b);
    }

    /// Stores the word `w` at the stack address `addr`, least significant
    /// byte first.
    pub fn write_word(&mut self, addr: usize, w: u64)
        requires
            old(self).wf(),
            old(self).in_stack(addr as int, 8),
        ensures
            final(self).wf(),
            word_at(*final(self), addr as int, w),
            final(self).stack@.len() == old(self).stack@.len(),
            forall|a: int|
                old(self).in_stack(a, 1) && !(addr <= a < addr + 8) ==> #[trigger] final(self).stack_byte(a) == old(
                    self,
                ).stack_byte(a),
            final(self).stack_base == old(self).stack_base,
            final(self).token == old(self).token,
            final(self).pages@ == old(self).pages@,
    {
        let mut k: usize = 0;
        while k < 8
            invariant
                k <= 8,
                self.wf(),
                self.in_stack(addr as int, 8),
                self.stack@.len() == old(self).stack@.len(),
                self.stack_base == old(self).stack_base,
                self.token == old(self).token,
                self.pages@ == old(self).pages@,
                forall|j: int|
                    0 <= j < k ==> #[trigger] self.stack_byte(addr + j) == (w >> ((8 * j) as u64)) as u8,
                forall|a: int|
                    self.in_stack(a, 1) && !(addr <= a < addr + k) ==> #[trigger] self.stack_byte(a) == old(self).stack_byte(a),
            decreases 8 - k,
        {
            let b: u8 = #[verifier::truncate] ((w >> ((8 * k) as u64)) as u8);
            let ghost prev = *self;
            self.write_byte(addr + k, b);
            proof {
                assert(self.stack_byte(addr + k) == b);
                assert forall|j: int| 0 <= j < k + 1 implies #[trigger] self.stack_byte(addr + j)
                    == (w >> ((8 * j) as u64)) as u8 by {
                    if j < k {
                        assert(prev.stack_byte(addr + j) == (w >> ((8 * j) as u64)) as u8);
                    }
                }
                assert forall|a: int| self.in_stack(a, 1) && !(addr <= a < addr + k + 1) implies #[trigger] self.stack_byte(a)
                    == old(self).stack_byte(a) by {
                    assert(prev.stack_byte(a) == old(self).stack_byte(a));
                }
            }
            k = k + 1;
        }
    }
}


impl MemorySet {
    /// Stores `bytes` at the stack address `addr` onwards.
    pub fn write_bytes(&mut self, addr: usize, bytes: &Vec<u8>)
        requires
            old(self).wf(),
            old(self).in_stack(addr as int, bytes@.len() as int),
        ensures
            final(self).wf(),
            forall|j: int|
                0 <= j < bytes@.len() ==> #[trigger] final(self).stack_byte(addr + j) == bytes@[j],
            final(self).stack@.len() == old(self).stack@.len(),
            forall|a: int|
                old(self).in_stack(a, 1) && !(addr <= a < addr + bytes@.len())
                    ==> #[trigger] final(self).stack_byte(a) == old(self).stack_byte(a),
            final(self).stack_base == old(self).stack_base,
            final(self).token == old(self).token,
            final(self).pages@ == old(self).pages@,
    {
        let mut j: usize = 0;
        while j < bytes.len()
            invariant
                j <= bytes@.len(),
                self.wf(),
                self.in_stack(addr as int, bytes@.len() as int),
                self.stack@.len() == old(self).stack@.len(),
                self.stack_base == old(self).stack_base,
                self.token == old(self).token,
                self.pages@ == old(self).pages@,
                forall|i: int| 0 <= i < j ==> #[trigger] self.stack_byte(addr + i) == bytes@[i],
                forall|a: int|
                    self.in_stack(a, 1) && !(addr <= a < addr + j)
                        ==> #[trigger] self.stack_byte(a) == old(self).stack_byte(a),
            decreases bytes@.len() - j,
        {
            let ghost prev = *self;
            self.write_byte(addr + j, bytes[j]);
            proof {
                assert(self.stack_byte(addr + j) == bytes@[j as int]);
                assert forall|i: int| 0 <= i < j + 1 implies #[trigger] self.stack_byte(addr + i)
                    == bytes@[i] by {
                    if i < j {
                        assert(prev.stack_byte(addr + i) == bytes@[i]);
                    }
                }
                assert forall|a: int| self.in_stack(a, 1) && !(addr <= a < addr + j + 1) implies
                    #[trigger] self.stack_byte(a) == old(self).stack_byte(a) by {
                    assert(prev.stack_byte(a) == old(self).stack_byte(a));
                }
            }
            j = j + 1;
        }
    }
}

} // verus!
