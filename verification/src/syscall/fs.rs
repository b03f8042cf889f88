//! The system calls on files and file descriptors.
use vstd::prelude::*;
use std::sync::Arc;
use crate::fs::{File, Stat};
use crate::fs::inode::{RootDirectory, spec_search, name_index};
use crate::task::task::{TaskControlBlockInner, first_free_fd, clone_file, lemma_first_free_fd};

verus! {

/// `table` with `file` in its first free slot, which is appended when every
/// slot is taken.
pub open spec fn install<F>(table: Seq<Option<Arc<F>>>, file: Arc<F>) -> Seq<Option<Arc<F>>> {
    let fd = first_free_fd(table);
    if fd < table.len() {
        table.update(fd, Some(file))
    } else {
        table.push(Some(file))
    }
}

/// Whether `fd` names an open file of `table`.
pub open spec fn is_open<F>(table: Seq<Option<Arc<F>>>, fd: int) -> bool {
    0 <= fd < table.len() && table[fd] is Some
}

/// The fields that the descriptor calls leave alone.
pub open spec fn same_but_fd_table<F>(a: TaskControlBlockInner<F>, b: TaskControlBlockInner<F>) -> bool {
    b == (TaskControlBlockInner { fd_table: b.fd_table, ..a })
}

/// Puts `file` in the least free descriptor and returns it.
fn install_file<F>(inner: &mut TaskControlBlockInner<F>, file: Arc<F>) -> (fd: usize)
    requires
        old(inner).fd_table@.len() < usize::MAX,
    ensures
        fd == first_free_fd(old(inner).fd_table@),
        fd <= old(inner).fd_table@.len(),
        final(inner).fd_table@ == install(old(inner).fd_table@, file),
        same_but_fd_table(*old(inner), *final(inner)),
{
    let fd = inner.alloc_fd();
    inner.fd_table.set(fd, Some(file));
    proof {
        if fd == old(inner).fd_table@.len() {
            assert(inner.fd_table@ =~= old(inner).fd_table@.push(Some(file)));
        }
    }
    fd
}

/// Links the name `newname` to the inode of `oldname`: 0 on success, -1
/// when the names are the same or `oldname` names nothing.
pub fn sys_linkat(dir: &mut RootDirectory, oldname: &Vec<u8>, newname: &Vec<u8>) -> (r: isize)
    ensures
        oldname@ == newname@ ==> r == -1 && final(dir).view() == old(dir).view(),
        oldname@ != newname@ ==> match spec_search(old(dir).view(), oldname@) {
            Some(ino) => r == 0 && final(dir).view() == old(dir).view().push((newname@, ino)),
            None => r == -1 && final(dir).view() == old(dir).view(),
        },
{
    if crate::fs::inode::bytes_eq(oldname, newname) {
        return -1;
    } else if let Some(_) = dir.search_file(oldname) {
        dir.add_a_link(oldname, newname);
        return 0;
    }
    -1
}

/// Removes the first entry named `name`: 0 on success, -1 when there is
/// none.
pub fn sys_unlinkat(dir: &mut RootDirectory, name: &Vec<u8>) -> (r: isize)
    ensures
        spec_search(old(dir).view(), name@) is Some ==> r == 0 && final(dir).view() == old(
            dir,
        ).view().remove(name_index(old(dir).view(), name@)),
        spec_search(old(dir).view(), name@) is None ==> r == -1 && final(dir).view() == old(dir).view(),
{
    match dir.search_file(name) {
        Some(_) => dir.rm_a_link(name),
        None => return -1,
    };
    0
}

/// Fills in `st` with the status of the file `fd`: -1 for the consoles
/// (descriptors up to 2) and for a free descriptor, 0 otherwise.
pub fn sys_fstat<F: File>(inner: &TaskControlBlockInner<F>, fd: i32, st: &mut Stat) -> (r: isize)
    requires
        fd > 2 ==> fd < inner.fd_table@.len(),
    ensures
        (fd <= 2 || inner.fd_table@[fd as int] is None) ==> r == -1 && *final(st) == *old(st),
        fd > 2 && inner.fd_table@[fd as int] is Some ==> {
            &&& r == 0
            &&& inner.fd_table@[fd as int]->0.stat_result(*old(st), *final(st))
        },
{
    if fd <= 2 {
        return -1;
    }
    if let Some(file) = &inner.fd_table[fd as usize] {
        let file = clone_file(file);
        file.stat(st);
    } else {
        return -1;
    }
    0
}

/// Writes `buf` to the file `fd`: -1 when `fd` is no open file or the file
/// cannot be written, the number of bytes written otherwise.
pub fn sys_write<F: File>(inner: &TaskControlBlockInner<F>, fd: usize, buf: &Vec<u8>) -> (r: isize)
    requires
        buf@.len() <= isize::MAX,
    ensures
        r == -1 <==> !(is_open(inner.fd_table@, fd as int) && inner.fd_table@[fd as int]->0.spec_writable()),
        r != -1 ==> 0 <= r <= buf@.len() && inner.fd_table@[fd as int]->0.write_result(*buf, r as usize),
{
    if fd >= inner.fd_table.len() {
        return -1;
    }
    if let Some(file) = &inner.fd_table[fd] {
        if !file.writable() {
            return -1;
        }
        let file = clone_file(file);
        file.write(buf) as isize
    } else {
        -1
    }
}

/// Reads into `buf` from the file `fd`: -1 when `fd` is no open file or the
/// file cannot be read, the number of bytes read otherwise.
pub fn sys_read<F: File>(inner: &TaskControlBlockInner<F>, fd: usize, buf: &mut Vec<u8>) -> (r: isize)
    requires
        old(buf)@.len() <= isize::MAX,
    ensures
        r == -1 <==> !(is_open(inner.fd_table@, fd as int) && inner.fd_table@[fd as int]->0.spec_readable()),
        r == -1 ==> final(buf)@ == old(buf)@,
        r != -1 ==> 0 <= r <= old(buf)@.len() && inner.fd_table@[fd as int]->0.read_result(
            *old(buf),
            *final(buf),
            r as usize,
        ),
        final(buf)@.len() == old(buf)@.len(),
{
    if fd >= inner.fd_table.len() {
        return -1;
    }
    if let Some(file) = &inner.fd_table[fd] {
        let file = clone_file(file);
        if !file.readable() {
            return -1;
        }
        file.read(buf) as isize
    } else {
        -1
    }
}

/// Gives the file that was opened, if any, the least free descriptor and
/// returns it; -1 when nothing was opened.
pub fn sys_open<F>(inner: &mut TaskControlBlockInner<F>, opened: Option<Arc<F>>) -> (r: isize)
    requires
        old(inner).fd_table@.len() < isize::MAX,
    ensures
        same_but_fd_table(*old(inner), *final(inner)),
        match opened {
            Some(file) => {
                &&& r == first_free_fd(old(inner).fd_table@)
                &&& final(inner).fd_table@ == install(old(inner).fd_table@, file)
            },
            None => r == -1 && final(inner).fd_table@ == old(inner).fd_table@,
        },
{
    if let Some(inode) = opened {
        let fd = install_file(inner, inode);
        fd as isize
    } else {
        -1
    }
}

/// Closes the file `fd`: 0 on success, -1 when `fd` is no open file.
pub fn sys_close<F>(inner: &mut TaskControlBlockInner<F>, fd: usize) -> (r: isize)
    ensures
        same_but_fd_table(*old(inner), *final(inner)),
        is_open(old(inner).fd_table@, fd as int) ==> r == 0 && final(inner).fd_table@ == old(
            inner,
        ).fd_table@.update(fd as int, None),
        !is_open(old(inner).fd_table@, fd as int) ==> r == -1 && final(inner).fd_table@ == old(
            inner,
        ).fd_table@,
{
    if fd >= inner.fd_table.len() {
        return -1;
    }
    if inner.fd_table[fd].is_none() {
        return -1;
    }
    inner.fd_table.set(fd, None);
    0
}

/// Opens the two ends of a new pipe in the two least free descriptors, the
/// read end first, and returns them.
pub fn sys_pipe<F>(inner: &mut TaskControlBlockInner<F>, pipe_read: Arc<F>, pipe_write: Arc<F>) -> (fds: (usize, usize))
    requires
        old(inner).fd_table@.len() + 1 < usize::MAX,
    ensures
        same_but_fd_table(*old(inner), *final(inner)),
        fds.0 == first_free_fd(old(inner).fd_table@),
        fds.1 == first_free_fd(install(old(inner).fd_table@, pipe_read)),
        final(inner).fd_table@ == install(install(old(inner).fd_table@, pipe_read), pipe_write),
{
    let read_fd = install_file(inner, pipe_read);
    let write_fd = install_file(inner, pipe_write);
    (read_fd, write_fd)
}

/// Opens the file of `fd` again in the least free descriptor and returns
/// it; -1 when `fd` is no open file.
pub fn sys_dup<F>(inner: &mut TaskControlBlockInner<F>, fd: usize) -> (r: isize)
    requires
        old(inner).fd_table@.len() < isize::MAX,
    ensures
        same_but_fd_table(*old(inner), *final(inner)),
        is_open(old(inner).fd_table@, fd as int) ==> {
            &&& r == first_free_fd(old(inner).fd_table@)
            &&& final(inner).fd_table@ == install(old(inner).fd_table@, old(inner).fd_table@[fd as int]->0)
        },
        !is_open(old(inner).fd_table@, fd as int) ==> r == -1 && final(inner).fd_table@ == old(
            inner,
        ).fd_table@,
{
    if fd >= inner.fd_table.len() {
        return -1;
    }
    if inner.fd_table[fd].is_none() {
        return -1;
    }
    let file = clone_file(inner.fd_table[fd].as_ref().unwrap());
    let new_fd = install_file(inner, file);
    new_fd as isize
}


/// A file installed in a table sits in the least free descriptor, the
/// other descriptors keep their files, and the table grows only when it was
/// full.
pub proof fn lemma_install<F>(table: Seq<Option<Arc<F>>>, file: Arc<F>)
    ensures
        ({
            let fd = first_free_fd(table);
            let t = install(table, file);
            &&& 0 <= fd <= table.len()
            &&& t[fd] == Some(file)
            &&& t.len() == if fd < table.len() { table.len() } else { table.len() + 1 }
            &&& forall|k: int| 0 <= k < table.len() && k != fd ==> t[k] == table[k]
            &&& forall|k: int| 0 <= k < fd ==> table[k] is Some
        }),
{
    lemma_first_free_fd(table);
}

/// Closing the descriptor that an open (or a `dup`, which installs the file
/// it copies) just gave back leaves the table as it was, but for a free slot
/// appended when the table was full.
pub proof fn lemma_close_undoes_open<F>(table: Seq<Option<Arc<F>>>, file: Arc<F>)
    ensures
        ({
            let fd = first_free_fd(table);
            &&& fd < table.len() ==> install(table, file).update(fd, None) == table
            &&& fd == table.len() ==> install(table, file).update(fd, None) == table.push(None)
        }),
{
    lemma_first_free_fd(table);
    let fd = first_free_fd(table);
    if fd < table.len() {
        assert(install(table, file).update(fd, None) =~= table);
    } else {
        assert(install(table, file).update(fd, None) =~= table.push(None));
    }
}

/// A duplicated descriptor refers to the same file as the one it copies, which
/// stays open.
pub proof fn lemma_dup_shares_file<F>(table: Seq<Option<Arc<F>>>, fd: int)
    requires
        is_open(table, fd),
    ensures
        ({
            let t = install(table, table[fd]->0);
            let new_fd = first_free_fd(table);
            &&& new_fd != fd
            &&& t[new_fd] == table[fd]
            &&& t[fd] == table[fd]
        }),
{
    lemma_first_free_fd(table);
}

/// Unlinking a name right after linking it, when it named nothing before,
/// gives back the directory there was.
pub proof fn lemma_unlink_undoes_link(dir: Seq<(Seq<u8>, u32)>, name: Seq<u8>, ino: u32)
    requires
        spec_search(dir, name) is None,
    ensures
        spec_search(dir.push((name, ino)), name) == Some(ino),
        dir.push((name, ino)).remove(name_index(dir.push((name, ino)), name)) == dir,
{
    let d2 = dir.push((name, ino));
    crate::fs::inode::lemma_name_index(dir, name);
    crate::fs::inode::lemma_name_index(d2, name);
    let i = name_index(d2, name);
    if i < dir.len() {
        assert(d2[i] == dir[i]);
        assert(dir[name_index(dir, name)].0 == name || name_index(dir, name) == dir.len());
        assert(name_index(dir, name) == dir.len());
        assert(dir[i].0 != name);
    }
    assert(d2[dir.len() as int].0 == name);
    assert(i == dir.len());
    assert(d2.remove(i) =~= dir);
}

} // verus!
