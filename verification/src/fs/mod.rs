//! The file abstraction that file descriptors refer to, and the flags and
//! status records that the file system calls exchange with user space.
pub mod inode;

use vstd::prelude::*;

verus! {

/// Kind bits of a file's mode, as reported by `fstat`.
#[derive(Clone, Copy, Debug, PartialEq, Eq, Structural)]
pub struct StatMode {
    pub bits: u32,
}

impl StatMode {
    pub fn NULL() -> (r: Self) ensures r.bits == 0u32, { StatMode { bits: 0 } }
    pub fn DIR() -> (r: Self) ensures r.bits == 0o040000u32, { StatMode { bits: 0o040000 } }
    pub fn FILE() -> (r: Self) ensures r.bits == 0o100000u32, { StatMode { bits: 0o100000 } }
}

/// The status record that `fstat` fills in.
#[derive(Clone, Copy, Debug)]
pub struct Stat {
    pub dev: u64,
    pub ino: u64,
    pub mode: StatMode,
    pub nlink: u32,
    pub pad: [u64; 7],
}

impl Stat {
    /// A record of the given fields with zeroed padding.
    pub fn new(dev: u64, ino: u64, mode: StatMode, nlink: u32) -> (r: Self)
        ensures
            r.dev == dev,
            r.ino == ino,
            r.mode == mode,
            r.nlink == nlink,
            forall|i: int| 0 <= i < 7 ==> r.pad[i] == 0,
    {
        Stat { dev, ino, mode, nlink, pad: [0u64, 0u64, 0u64, 0u64, 0u64, 0u64, 0u64] }
    }
}

/// Flags of `open`: the access mode and whether to create or truncate.
#[derive(Clone, Copy, Debug, PartialEq, Eq, Structural)]
pub struct OpenFlags {
    pub bits: u32,
}

/// The bits that `open` knows.
pub const OPEN_FLAGS_KNOWN: u32 = 0x603;

impl OpenFlags {
    pub fn RDONLY() -> (r: Self) ensures r.bits == 0u32, { OpenFlags { bits: 0 } }
    pub fn WRONLY() -> (r: Self) ensures r.bits == 1u32, { OpenFlags { bits: 1 } }
    pub fn RDWR() -> (r: Self) ensures r.bits == 2u32, { OpenFlags { bits: 2 } }
    pub fn CREATE() -> (r: Self) ensures r.bits == 0x200u32, { OpenFlags { bits: 0x200 } }
    pub fn TRUNC() -> (r: Self) ensures r.bits == 0x400u32, { OpenFlags { bits: 0x400 } }

    /// Whether `bits` holds only known flags.
    pub open spec fn valid_bits(bits: u32) -> bool {
        bits & !OPEN_FLAGS_KNOWN == 0
    }

    /// The flags of `bits`, or `None` when it holds an unknown bit.
    pub fn from_bits(bits: u32) -> (r: Option<Self>)
        ensures
            r == (if Self::valid_bits(bits) { Some(OpenFlags { bits }) } else { None }),
    {
        if bits & !OPEN_FLAGS_KNOWN == 0 {
            Some(OpenFlags { bits })
        } else {
            None
        }
    }

    /// Whether a file opened with these flags may be read and written:
    /// read-only without a mode bit, write-only with `WRONLY`, both otherwise.
    pub open spec fn spec_read_write(self) -> (bool, bool) {
        if self.bits == 0 {
            (true, false)
        } else if self.bits & 1 == 1 {
            (false, true)
        } else {
            (true, true)
        }
    }

    pub fn read_write(&self) -> (r: (bool, bool))
        ensures
            r == self.spec_read_write(),
    {
        if self.bits == 0 {
            (true, false)
        } else if self.bits & 1 == 1 {
            (false, true)
        } else {
            (true, true)
        }
    }
}

/// The rights that open flags give: a file may be read exactly when
/// `WRONLY` is not among the flags, and written exactly when some flag is
/// set (read-only is no flag at all), whatever `CREATE` and `TRUNC` add.
pub proof fn lemma_read_write_rights(flags: OpenFlags)
    ensures
        flags.spec_read_write().0 == (flags.bits & 1 == 0),
        flags.spec_read_write().1 == (flags.bits != 0),
{
    let b = flags.bits;
    assert(b == 0 ==> b & 1 == 0) by (bit_vector);
    assert(b & 1 == 1 || b & 1 == 0) by (bit_vector);
}

/// An open file as seen through a file descriptor: a console, a file of the
/// file system or an end of a pipe. Implementations are bound to report the
/// same access rights on every call, as `spec_readable` and `spec_writable`
/// say, to transfer no more bytes than the buffer holds, and to do what
/// `read_result`, `write_result` and `stat_result` say of each transfer.
/// Outside verified code these five are ordinary methods, which an
/// implementation defines: the first two to return what `readable` and
/// `writable` return, the other three to tell whether a transfer with the
/// given buffers and count is one the file does.
pub trait File {
    /// Whether the file may be read.
    spec fn spec_readable(&self) -> bool;

    /// Whether the file may be written.
    spec fn spec_writable(&self) -> bool;

    /// Whether a read that found `before` in the buffer, left `after` there
    /// and reported `n` bytes is one that this file does.
    spec fn read_result(&self, before: Vec<u8>, after: Vec<u8>, n: usize) -> bool;

    /// Whether writing `data` and reporting `n` bytes written is one that this
    /// file does.
    spec fn write_result(&self, data: Vec<u8>, n: usize) -> bool;

    /// Whether filling in the record `before` to give `after` is what this
    /// file's status gives.
    spec fn stat_result(&self, before: Stat, after: Stat) -> bool;

    fn readable(&self) -> (r: bool)
        ensures
            r == self.spec_readable(),
    ;

    fn writable(&self) -> (r: bool)
        ensures
            r == self.spec_writable(),
    ;

    /// Reads into `buf`, returning the number of bytes read.
    fn read(&self, buf: &mut Vec<u8>) -> (n: usize)
        ensures
            n <= old(buf)@.len(),
            final(buf)@.len() == old(buf)@.len(),
            self.read_result(*old(buf), *final(buf), n),
    ;

    /// Writes from `buf`, returning the number of bytes written.
    fn write(&self, buf: &Vec<u8>) -> (n: usize)
        ensures
            n <= buf@.len(),
            self.write_result(*buf, n),
    ;

    /// Fills in the status record of the file.
    fn stat(&self, st: &mut Stat) -> (r: usize)
        ensures
            self.stat_result(*old(st), *final(st)),
    ;
}

} // verus!
