//! The root directory of the file system: named links to inodes.
use vstd::prelude::*;

verus! {

/// A name in the root directory and the inode it links to.
pub struct DirEntry {
    pub name: Vec<u8>,
    pub inode_id: u32,
}

/// The names and inodes of `entries`.
pub open spec fn entries_view(entries: Seq<DirEntry>) -> Seq<(Seq<u8>, u32)> {
    entries.map_values(|e: DirEntry| (e.name@, e.inode_id))
}

/// The position of the first entry named `name` in `s`, or its length when
/// there is none.
pub open spec fn name_index(s: Seq<(Seq<u8>, u32)>, name: Seq<u8>) -> int {
    if exists|i: int| 0 <= i < s.len() && s[i].0 == name {
        choose|i: int| 0 <= i < s.len() && s[i].0 == name && forall|k: int| 0 <= k < i ==> s[k].0 != name
    } else {
        s.len() as int
    }
}

proof fn lemma_least_match(s: Seq<(Seq<u8>, u32)>, name: Seq<u8>, w: int)
    requires
        0 <= w < s.len(),
        s[w].0 == name,
    ensures
        exists|i: int| 0 <= i < s.len() && s[i].0 == name && forall|k: int| 0 <= k < i ==> s[k].0 != name,
    decreases w,
{
    if exists|k: int| 0 <= k < w && s[k].0 == name {
        let k = choose|k: int| 0 <= k < w && s[k].0 == name;
        lemma_least_match(s, name, k);
    }
}

/// `name_index` is the first entry of that name.
pub proof fn lemma_name_index(s: Seq<(Seq<u8>, u32)>, name: Seq<u8>)
    ensures
        0 <= name_index(s, name) <= s.len(),
        name_index(s, name) < s.len() ==> s[name_index(s, name)].0 == name,
        forall|k: int| 0 <= k < name_index(s, name) ==> s[k].0 != name,
{
    if exists|i: int| 0 <= i < s.len() && s[i].0 == name {
        let w = choose|i: int| 0 <= i < s.len() && s[i].0 == name;
        lemma_least_match(s, name, w);
    }
}

/// The inode that `name` links to in `s`.
pub open spec fn spec_search(s: Seq<(Seq<u8>, u32)>, name: Seq<u8>) -> Option<u32> {
    if name_index(s, name) < s.len() {
        Some(s[name_index(s, name)].1)
    } else {
        None
    }
}

/// How many names link to the inode `ino` in `s`.
pub open spec fn nlink(s: Seq<(Seq<u8>, u32)>, ino: u32) -> nat {
    s.filter(|e: (Seq<u8>, u32)| e.1 == ino).len()
}

/// Whether two byte strings are equal.
pub fn bytes_eq(a: &Vec<u8>, b: &Vec<u8>) -> (r: bool)
    ensures
        r == (a@ == b@),
{
    if a.len() != b.len() {
        return false;
    }
    let mut i: usize = 0;
    while i < a.len()
        invariant
            i <= a@.len(),
            a@.len() == b@.len(),
            forall|k: int| 0 <= k < i ==> a@[k] == b@[k],
        decreases a@.len() - i,
    {
        if a[i] != b[i] {
            return false;
        }
        i = i + 1;
    }
    assert(a@ =~= b@);
    true
}

/// A copy of a byte string.
pub fn copy_bytes(a: &Vec<u8>) -> (r: Vec<u8>)
    ensures
        r@ == a@,
{
    let mut r: Vec<u8> = Vec::new();
    let mut i: usize = 0;
    while i < a.len()
        invariant
            i <= a@.len(),
            r@ == a@.subrange(0, i as int),
        decreases a@.len() - i,
    {
        r.push(a[i]);
        i = i + 1;
        assert(r@ =~= a@.subrange(0, i as int));
    }
    assert(r@ =~= a@);
    r
}

/// The root directory: the only directory of the file system.
pub struct RootDirectory {
    pub entries: Vec<DirEntry>,
}

impl RootDirectory {
    /// The names and inodes of the directory, in order.
    pub open spec fn view(&self) -> Seq<(Seq<u8>, u32)> {
        entries_view(self.entries@)
    }

    pub fn new() -> (d: Self)
        ensures
            d.view() == Seq::<(Seq<u8>, u32)>::empty(),
    {
        let d = RootDirectory { entries: Vec::new() };
        assert(d.view() =~= Seq::<(Seq<u8>, u32)>::empty());
        d
    }

    /// Where the first entry named `name` is, or the number of entries.
    fn index_of(&self, name: &Vec<u8>) -> (i: usize)
        ensures
            i == name_index(self.view(), name@),
    {
        proof {
            lemma_name_index(self.view(), name@);
        }
        let mut i: usize = 0;
        while i < self.entries.len()
            invariant
                i <= self.entries@.len(),
                forall|k: int| 0 <= k < i ==> self.view()[k].0 != name@,
            decreases self.entries@.len() - i,
        {
            if bytes_eq(&self.entries[i].name, name) {
                assert(self.view()[i as int].0 == name@);
                return i;
            }
            i = i + 1;
        }
        i
    }

    /// The inode that `name` links to, if any.
    pub fn search_file(&self, name: &Vec<u8>) -> (r: Option<u32>)
        ensures
            r == spec_search(self.view(), name@),
    {
        let i = self.index_of(name);
        if i < self.entries.len() {
            Some(self.entries[i].inode_id)
        } else {
            None
        }
    }

    /// Adds the name `new_name` for the inode that `old_name` links to, after
    /// the other entries; nothing changes when `old_name` links to nothing.
    pub fn add_a_link(&mut self, old_name: &Vec<u8>, new_name: &Vec<u8>)
        ensures
            spec_search(old(self).view(), old_name@) matches Some(ino) ==> final(self).view() == old(
                self,
            ).view().push((new_name@, ino)),
            spec_search(old(self).view(), old_name@) is None ==> final(self).view() == old(self).view(),
    {
        if let Some(ino) = self.search_file(old_name) {
            let name = copy_bytes(new_name);
            self.entries.push(DirEntry { name, inode_id: ino });
            assert(self.view() =~= old(self).view().push((new_name@, ino)));
        }
    }

    /// Removes the first entry named `name`, if any.
    pub fn rm_a_link(&mut self, name: &Vec<u8>)
        ensures
            name_index(old(self).view(), name@) < old(self).view().len() ==> final(self).view() == old(
                self,
            ).view().remove(name_index(old(self).view(), name@)),
            name_index(old(self).view(), name@) == old(self).view().len() ==> final(self).view() == old(
                self,
            ).view(),
    {
        let i = self.index_of(name);
        if i < self.entries.len() {
            self.entries.remove(i);
            assert(self.view() =~= old(self).view().remove(i as int));
        }
    }
}

} // verus!
