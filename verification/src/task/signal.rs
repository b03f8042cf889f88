//! Signal numbers and the set of pending or masked signals.
use vstd::prelude::*;

verus! {

/// The largest signal number; signal `n` is the bit `1 << n`.
pub const MAX_SIG: usize = 31;

/// A set of signals, one bit per signal number.
#[derive(Clone, Copy, Debug, PartialEq, Eq, Structural)]
pub struct SignalFlags {
    pub bits: u32,
}

/// The set holding exactly the signal numbered `sig`.
pub open spec fn signal_of(sig: int) -> SignalFlags
    recommends
        0 <= sig <= MAX_SIG,
{
    SignalFlags { bits: (1u32 << (sig as u32)) }
}

impl SignalFlags {
    /// Whether every signal of `other` is in `self`.
    pub open spec fn spec_contains(self, other: SignalFlags) -> bool {
        (self.bits & other.bits) == other.bits
    }

    /// Whether the signal numbered `sig` is in `self`.
    pub open spec fn has_signal(self, sig: int) -> bool {
        self.spec_contains(signal_of(sig))
    }

    pub fn empty() -> (r: Self)
        ensures
            r.bits == 0,
    {
        SignalFlags { bits: 0 }
    }

    /// Every value of `bits` names a set of known signals, so this never fails.
    pub fn from_bits(bits: u32) -> (r: Option<Self>)
        ensures
            r == Some(SignalFlags { bits }),
    {
        Some(SignalFlags { bits })
    }

    pub fn bits(&self) -> (r: u32)
        ensures
            r == self.bits,
    {
        self.bits
    }

    pub fn contains(&self, other: Self) -> (r: bool)
        ensures
            r == self.spec_contains(other),
    {
        (self.bits & other.bits) == other.bits
    }

    /// Adds the signals of `other` (the `|=` of the flag set).
    pub fn insert(&mut self, other: Self)
        ensures
            final(self).bits == old(self).bits | other.bits,
    {
        self.bits = self.bits | other.bits;
    }

    /// Flips the signals of `other` (the `^=` of the flag set).
    pub fn toggle(&mut self, other: Self)
        ensures
            final(self).bits == old(self).bits ^ other.bits,
    {
        self.bits = self.bits ^ other.bits;
    }

    pub fn SIGDEF() -> (r: Self) ensures r.bits == 1u32, { SignalFlags { bits: 1 } }
    pub fn SIGHUP() -> (r: Self) ensures r.bits == 1u32 << 1u32, { SignalFlags { bits: 1 << 1 } }
    pub fn SIGINT() -> (r: Self) ensures r.bits == 1u32 << 2u32, { SignalFlags { bits: 1 << 2 } }
    pub fn SIGQUIT() -> (r: Self) ensures r.bits == 1u32 << 3u32, { SignalFlags { bits: 1 << 3 } }
    pub fn SIGILL() -> (r: Self) ensures r.bits == 1u32 << 4u32, { SignalFlags { bits: 1 << 4 } }
    pub fn SIGTRAP() -> (r: Self) ensures r.bits == 1u32 << 5u32, { SignalFlags { bits: 1 << 5 } }
    pub fn SIGABRT() -> (r: Self) ensures r.bits == 1u32 << 6u32, { SignalFlags { bits: 1 << 6 } }
    pub fn SIGBUS() -> (r: Self) ensures r.bits == 1u32 << 7u32, { SignalFlags { bits: 1 << 7 } }
    pub fn SIGFPE() -> (r: Self) ensures r.bits == 1u32 << 8u32, { SignalFlags { bits: 1 << 8 } }
    pub fn SIGKILL() -> (r: Self) ensures r.bits == 1u32 << 9u32, { SignalFlags { bits: 1 << 9 } }
    pub fn SIGUSR1() -> (r: Self) ensures r.bits == 1u32 << 10u32, { SignalFlags { bits: 1 << 10 } }
    pub fn SIGSEGV() -> (r: Self) ensures r.bits == 1u32 << 11u32, { SignalFlags { bits: 1 << 11 } }
    pub fn SIGUSR2() -> (r: Self) ensures r.bits == 1u32 << 12u32, { SignalFlags { bits: 1 << 12 } }
    pub fn SIGPIPE() -> (r: Self) ensures r.bits == 1u32 << 13u32, { SignalFlags { bits: 1 << 13 } }
    pub fn SIGALRM() -> (r: Self) ensures r.bits == 1u32 << 14u32, { SignalFlags { bits: 1 << 14 } }
    pub fn SIGTERM() -> (r: Self) ensures r.bits == 1u32 << 15u32, { SignalFlags { bits: 1 << 15 } }
    pub fn SIGSTKFLT() -> (r: Self) ensures r.bits == 1u32 << 16u32, { SignalFlags { bits: 1 << 16 } }
    pub fn SIGCHLD() -> (r: Self) ensures r.bits == 1u32 << 17u32, { SignalFlags { bits: 1 << 17 } }
    pub fn SIGCONT() -> (r: Self) ensures r.bits == 1u32 << 18u32, { SignalFlags { bits: 1 << 18 } }
    pub fn SIGSTOP() -> (r: Self) ensures r.bits == 1u32 << 19u32, { SignalFlags { bits: 1 << 19 } }
    pub fn SIGTSTP() -> (r: Self) ensures r.bits == 1u32 << 20u32, { SignalFlags { bits: 1 << 20 } }
    pub fn SIGTTIN() -> (r: Self) ensures r.bits == 1u32 << 21u32, { SignalFlags { bits: 1 << 21 } }
    pub fn SIGTTOU() -> (r: Self) ensures r.bits == 1u32 << 22u32, { SignalFlags { bits: 1 << 22 } }
    pub fn SIGURG() -> (r: Self) ensures r.bits == 1u32 << 23u32, { SignalFlags { bits: 1 << 23 } }
    pub fn SIGXCPU() -> (r: Self) ensures r.bits == 1u32 << 24u32, { SignalFlags { bits: 1 << 24 } }
    pub fn SIGXFSZ() -> (r: Self) ensures r.bits == 1u32 << 25u32, { SignalFlags { bits: 1 << 25 } }
    pub fn SIGVTALRM() -> (r: Self) ensures r.bits == 1u32 << 26u32, { SignalFlags { bits: 1 << 26 } }
    pub fn SIGPROF() -> (r: Self) ensures r.bits == 1u32 << 27u32, { SignalFlags { bits: 1 << 27 } }
    pub fn SIGWINCH() -> (r: Self) ensures r.bits == 1u32 << 28u32, { SignalFlags { bits: 1 << 28 } }
    pub fn SIGIO() -> (r: Self) ensures r.bits == 1u32 << 29u32, { SignalFlags { bits: 1 << 29 } }
    pub fn SIGPWR() -> (r: Self) ensures r.bits == 1u32 << 30u32, { SignalFlags { bits: 1 << 30 } }
    pub fn SIGSYS() -> (r: Self) ensures r.bits == 1u32 << 31u32, { SignalFlags { bits: 1 << 31 } }

    /// The exit code and message of the first fatal signal pending in `self`,
    /// looked for in the order SIGINT, SIGILL, SIGABRT, SIGFPE, SIGSEGV.
    pub open spec fn spec_check_error(self) -> Option<(i32, Seq<char>)> {
        if self.has_signal(2) {
            Some((-2i32, "Killed, SIGINT=2"@))
        } else if self.has_signal(4) {
            Some((-4i32, "Illegal Instruction, SIGILL=4"@))
        } else if self.has_signal(6) {
            Some((-6i32, "Aborted, SIGABRT=6"@))
        } else if self.has_signal(8) {
            Some((-8i32, "Erroneous Arithmetic Operation, SIGFPE=8"@))
        } else if self.has_signal(11) {
            Some((-11i32, "Segmentation Fault, SIGSEGV=11"@))
        } else {
            None
        }
    }

    pub fn check_error(&self) -> (r: Option<(i32, &'static str)>)
        ensures
            match (r, self.spec_check_error()) {
                (None, None) => true,
                (Some(x), Some(y)) => x.0 == y.0 && x.1@ == y.1,
                _ => false,
            },
    {
        if self.contains(Self::SIGINT()) {
            Some((-2, "Killed, SIGINT=2"))
        } else if self.contains(Self::SIGILL()) {
            Some((-4, "Illegal Instruction, SIGILL=4"))
        } else if self.contains(Self::SIGABRT()) {
            Some((-6, "Aborted, SIGABRT=6"))
        } else if self.contains(Self::SIGFPE()) {
            Some((-8, "Erroneous Arithmetic Operation, SIGFPE=8"))
        } else if self.contains(Self::SIGSEGV()) {
            Some((-11, "Segmentation Fault, SIGSEGV=11"))
        } else {
            None
        }
    }
}


/// The fatal-signal check looks only at SIGINT, SIGILL, SIGABRT, SIGFPE and
/// SIGSEGV (bits 2, 4, 6, 8 and 11) and reports the lowest of them that is
/// pending, whatever other signals are pending; with none of them pending it
/// reports nothing.
pub proof fn lemma_check_error_first_fatal(set: SignalFlags)
    ensures
        set.bits & 0x4 != 0 ==> set.spec_check_error() == Some((-2i32, "Killed, SIGINT=2"@)),
        set.bits & 0x4 == 0 && set.bits & 0x10 != 0 ==> set.spec_check_error() == Some(
            (-4i32, "Illegal Instruction, SIGILL=4"@),
        ),
        set.bits & 0x14 == 0 && set.bits & 0x40 != 0 ==> set.spec_check_error() == Some(
            (-6i32, "Aborted, SIGABRT=6"@),
        ),
        set.bits & 0x54 == 0 && set.bits & 0x100 != 0 ==> set.spec_check_error() == Some(
            (-8i32, "Erroneous Arithmetic Operation, SIGFPE=8"@),
        ),
        set.bits & 0x154 == 0 && set.bits & 0x800 != 0 ==> set.spec_check_error() == Some(
            (-11i32, "Segmentation Fault, SIGSEGV=11"@),
        ),
        set.bits & 0x954 == 0 ==> set.spec_check_error() is None,
{
    let b = set.bits;
    assert(((b & (1u32 << 2u32)) == (1u32 << 2u32)) == (b & 0x4 != 0)) by (bit_vector);
    assert(((b & (1u32 << 4u32)) == (1u32 << 4u32)) == (b & 0x10 != 0)) by (bit_vector);
    assert(((b & (1u32 << 6u32)) == (1u32 << 6u32)) == (b & 0x40 != 0)) by (bit_vector);
    assert(((b & (1u32 << 8u32)) == (1u32 << 8u32)) == (b & 0x100 != 0)) by (bit_vector);
    assert(((b & (1u32 << 11u32)) == (1u32 << 11u32)) == (b & 0x800 != 0)) by (bit_vector);
    assert((b & 0x14 == 0) == (b & 0x4 == 0 && b & 0x10 == 0)) by (bit_vector);
    assert((b & 0x54 == 0) == (b & 0x14 == 0 && b & 0x40 == 0)) by (bit_vector);
    assert((b & 0x154 == 0) == (b & 0x54 == 0 && b & 0x100 == 0)) by (bit_vector);
    assert((b & 0x954 == 0) == (b & 0x154 == 0 && b & 0x800 == 0)) by (bit_vector);
}

/// Two sets that agree on the five fatal signals get the same answer from
/// the fatal-signal check.
pub proof fn lemma_check_error_only_fatal_signals(a: SignalFlags, b: SignalFlags)
    requires
        a.bits & 0x954 == b.bits & 0x954,
    ensures
        a.spec_check_error() == b.spec_check_error(),
{
    lemma_check_error_first_fatal(a);
    lemma_check_error_first_fatal(b);
    let x = a.bits;
    let y = b.bits;
    assert(x & 0x954 == y & 0x954 ==> {
        &&& (x & 0x4 == 0) == (y & 0x4 == 0)
        &&& (x & 0x10 == 0) == (y & 0x10 == 0)
        &&& (x & 0x14 == 0) == (y & 0x14 == 0)
        &&& (x & 0x40 == 0) == (y & 0x40 == 0)
        &&& (x & 0x54 == 0) == (y & 0x54 == 0)
        &&& (x & 0x100 == 0) == (y & 0x100 == 0)
        &&& (x & 0x154 == 0) == (y & 0x154 == 0)
        &&& (x & 0x800 == 0) == (y & 0x800 == 0)
        &&& (x & 0x954 == 0) == (y & 0x954 == 0)
    }) by (bit_vector);
    assert((x & 0x14 == 0) == (x & 0x4 == 0 && x & 0x10 == 0)) by (bit_vector);
    assert((x & 0x54 == 0) == (x & 0x14 == 0 && x & 0x40 == 0)) by (bit_vector);
    assert((x & 0x154 == 0) == (x & 0x54 == 0 && x & 0x100 == 0)) by (bit_vector);
    assert((x & 0x954 == 0) == (x & 0x154 == 0 && x & 0x800 == 0)) by (bit_vector);
    if x & 0x4 != 0 {
    } else if x & 0x10 != 0 {
    } else if x & 0x40 != 0 {
    } else if x & 0x100 != 0 {
    } else if x & 0x800 != 0 {
    } else {
        assert(x & 0x954 == 0 <== (x & 0x4 == 0 && x & 0x10 == 0 && x & 0x40 == 0 && x & 0x100 == 0 && x
            & 0x800 == 0)) by (bit_vector);
    }
}

} // verus!
