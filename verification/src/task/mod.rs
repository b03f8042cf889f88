//! Tasks: their control blocks, signals and scheduling.
pub mod action;
pub mod context;
pub mod manager;
pub mod pid;
pub mod signal;
pub mod task;

use vstd::prelude::*;
use task::TaskControlBlockInner;
use signal::{SignalFlags, MAX_SIG};

verus! {

/// Facts about single signal bits.
proof fn lemma_signal_bits(b: u32, s: u32, t: u32)
    requires
        s < 32,
        t < 32,
    ensures
        s != t ==> ((b ^ (1u32 << t)) & (1u32 << s)) == (b & (1u32 << s)),
        s != t ==> (1u32 << s) != (1u32 << t),
        (b & (1u32 << t)) == (1u32 << t) ==> ((b ^ (1u32 << t)) & (1u32 << t)) == 0u32,
        (1u32 << t) != 0u32,
{
    assert(s != t ==> ((b ^ (1u32 << t)) & (1u32 << s)) == (b & (1u32 << s))) by (bit_vector)
        requires
            s < 32,
            t < 32,
    ;
    assert(s != t ==> (1u32 << s) != (1u32 << t)) by (bit_vector)
        requires
            s < 32,
            t < 32,
    ;
    assert((b & (1u32 << t)) == (1u32 << t) ==> ((b ^ (1u32 << t)) & (1u32 << t)) == 0u32)
        by (bit_vector)
        requires
            t < 32,
    ;
    assert((1u32 << t) != 0u32) by (bit_vector)
        requires
            t < 32,
    ;
}

/// Whether the signal `sig` is handled by the kernel itself: SIGDEF,
/// SIGKILL, SIGCONT and SIGSTOP.
pub open spec fn is_kernel_signal(sig: int) -> bool {
    sig == 0 || sig == 9 || sig == 18 || sig == 19
}

/// Whether the signal `sig` is pending and neither masked by the task nor by
/// the action of the signal whose handler runs.
pub open spec fn deliverable<F>(inner: TaskControlBlockInner<F>, sig: int) -> bool {
    &&& inner.signals.has_signal(sig)
    &&& !inner.signal_mask.has_signal(sig)
    &&& (inner.handling_sig == -1 || !inner.signal_actions.table[inner.handling_sig as int].mask.has_signal(
        sig,
    ))
}

/// The least deliverable signal at or above `from` that a user handler
/// would take, or `MAX_SIG + 1` when there is none.
pub open spec fn first_user_signal_from<F>(inner: TaskControlBlockInner<F>, from: int) -> int
    decreases MAX_SIG + 1 - from,
{
    if from > MAX_SIG {
        MAX_SIG + 1
    } else if deliverable(inner, from) && !is_kernel_signal(from) {
        from
    } else {
        first_user_signal_from(inner, from + 1)
    }
}

/// The least deliverable signal that a user handler would take, or
/// `MAX_SIG + 1` when there is none.
pub open spec fn first_user_signal<F>(inner: TaskControlBlockInner<F>) -> int {
    first_user_signal_from(inner, 0)
}

/// Whether `check_pending_signals` hands `sig` to the kernel handler: it is
/// a deliverable kernel signal below `limit`.
pub open spec fn kernel_handles<F>(inner: TaskControlBlockInner<F>, sig: int, limit: int) -> bool {
    deliverable(inner, sig) && is_kernel_signal(sig) && sig < limit
}

/// The pending signals once the kernel signals below `limit` are handled:
/// a handled SIGSTOP or SIGCONT leaves the set.
pub open spec fn bits_after_kernel<F>(inner: TaskControlBlockInner<F>, limit: int) -> u32 {
    inner.signals.bits ^ (if kernel_handles(inner, 19, limit) {
        1u32 << 19u32
    } else {
        0u32
    }) ^ (if kernel_handles(inner, 18, limit) {
        1u32 << 18u32
    } else {
        0u32
    })
}

/// Whether the task is frozen once the kernel signals below `limit` are
/// handled: SIGSTOP, handled after SIGCONT, freezes; SIGCONT thaws.
pub open spec fn frozen_after_kernel<F>(inner: TaskControlBlockInner<F>, limit: int) -> bool {
    if kernel_handles(inner, 19, limit) {
        true
    } else if kernel_handles(inner, 18, limit) {
        false
    } else {
        inner.frozen
    }
}

/// Whether the task is killed once the kernel signals below `limit` are
/// handled: SIGKILL and SIGDEF kill it.
pub open spec fn killed_after_kernel<F>(inner: TaskControlBlockInner<F>, limit: int) -> bool {
    inner.killed || kernel_handles(inner, 9, limit) || kernel_handles(inner, 0, limit)
}

/// The fields that signal handling leaves alone.
pub open spec fn same_but_signal_state<F>(a: TaskControlBlockInner<F>, b: TaskControlBlockInner<F>) -> bool {
    &&& a.base_size == b.base_size
    &&& a.task_cx == b.task_cx
    &&& a.task_status == b.task_status
    &&& a.memory_set == b.memory_set
    &&& a.parent == b.parent
    &&& a.children == b.children
    &&& a.exit_code == b.exit_code
    &&& a.fd_table == b.fd_table
    &&& a.signal_mask == b.signal_mask
    &&& a.signal_actions == b.signal_actions
}

/// Reacts to a signal that the kernel handles: SIGSTOP freezes the task and
/// leaves the pending set, a pending SIGCONT leaves it and thaws the task,
/// and any other signal kills the task.
pub fn call_kernel_signal_handler<F>(inner: &mut TaskControlBlockInner<F>, signal: SignalFlags)
    ensures
        same_but_signal_state(*old(inner), *final(inner)),
        final(inner).handling_sig == old(inner).handling_sig,
        final(inner).trap_cx == old(inner).trap_cx,
        final(inner).trap_ctx_backup == old(inner).trap_ctx_backup,
        signal.bits == 1u32 << 19u32 ==> {
            &&& final(inner).frozen
            &&& final(inner).signals.bits == old(inner).signals.bits ^ signal.bits
            &&& final(inner).killed == old(inner).killed
        },
        signal.bits == 1u32 << 18u32 ==> {
            &&& old(inner).signals.spec_contains(signal) ==> {
                &&& !final(inner).frozen
                &&& final(inner).signals.bits == old(inner).signals.bits ^ signal.bits
            }
            &&& !old(inner).signals.spec_contains(signal) ==> {
                &&& final(inner).frozen == old(inner).frozen
                &&& final(inner).signals == old(inner).signals
            }
            &&& final(inner).killed == old(inner).killed
        },
        signal.bits != 1u32 << 19u32 && signal.bits != 1u32 << 18u32 ==> {
            &&& final(inner).killed
            &&& final(inner).frozen == old(inner).frozen
            &&& final(inner).signals == old(inner).signals
        },
{
    proof {
        lemma_signal_bits(signal.bits, 18, 19);
    }
    if signal == SignalFlags::SIGSTOP() {
        inner.frozen = true;
        inner.signals.toggle(SignalFlags::SIGSTOP());
    } else if signal == SignalFlags::SIGCONT() {
        if inner.signals.contains(SignalFlags::SIGCONT()) {
            inner.signals.toggle(SignalFlags::SIGCONT());
            inner.frozen = false;
        }
    } else {
        inner.killed = true;
    }
}

/// Starts the user handler of signal `sig` when one is set: the registers
/// are saved, the handler becomes the return address with `sig` as its
/// argument, and the signal leaves the pending set. Without a handler the
/// signal is ignored.
fn call_user_signal_handler<F>(inner: &mut TaskControlBlockInner<F>, sig: usize, signal: SignalFlags)
    requires
        sig <= MAX_SIG,
    ensures
        same_but_signal_state(*old(inner), *final(inner)),
        final(inner).frozen == old(inner).frozen,
        final(inner).killed == old(inner).killed,
        old(inner).signal_actions.table[sig as int].handler != 0 ==> {
            &&& final(inner).handling_sig == sig
            &&& final(inner).signals.bits == old(inner).signals.bits ^ signal.bits
            &&& final(inner).trap_ctx_backup == Some(old(inner).trap_cx)
            &&& final(inner).trap_cx.sepc == old(inner).signal_actions.table[sig as int].handler
            &&& final(inner).trap_cx.x@ == old(inner).trap_cx.x@.update(10, sig)
            &&& final(inner).trap_cx.sstatus == old(inner).trap_cx.sstatus
            &&& final(inner).trap_cx.kernel_satp == old(inner).trap_cx.kernel_satp
            &&& final(inner).trap_cx.kernel_sp == old(inner).trap_cx.kernel_sp
            &&& final(inner).trap_cx.trap_handler == old(inner).trap_cx.trap_handler
        },
        old(inner).signal_actions.table[sig as int].handler == 0 ==> {
            &&& final(inner).handling_sig == old(inner).handling_sig
            &&& final(inner).signals == old(inner).signals
            &&& final(inner).trap_ctx_backup == old(inner).trap_ctx_backup
            &&& final(inner).trap_cx == old(inner).trap_cx
        },
{
    let handler = inner.signal_actions.table[sig].handler;
    if handler != 0 {
        inner.handling_sig = sig as isize;
        inner.signals.toggle(signal);
        let trap_ctx = inner.get_trap_cx();
        let saved = *trap_ctx;
        trap_ctx.sepc = handler;
        trap_ctx.x[10] = sig;
        inner.trap_ctx_backup = Some(saved);
    }
}


proof fn lemma_first_user_signal_from_bounds<F>(inner: TaskControlBlockInner<F>, from: int)
    requires
        0 <= from,
    ensures
        from <= MAX_SIG + 1 ==> from <= first_user_signal_from(inner, from),
        first_user_signal_from(inner, from) <= MAX_SIG + 1 || first_user_signal_from(inner, from) == from,
    decreases MAX_SIG + 1 - from,
{
    if from <= MAX_SIG {
        lemma_first_user_signal_from_bounds(inner, from + 1);
    }
}

/// Handling the kernel signals below `limit` leaves the bit of every signal
/// at or above `limit` as it was.
proof fn lemma_bits_after_kernel<F>(inner: TaskControlBlockInner<F>, limit: int, s: int)
    requires
        limit <= s <= MAX_SIG,
    ensures
        (bits_after_kernel(inner, limit) & (1u32 << (s as u32))) == (inner.signals.bits & (1u32 << (
            s as u32
        ))),
{
    let b = inner.signals.bits;
    let b1 = b ^ (if kernel_handles(inner, 19, limit) { 1u32 << 19 } else { 0u32 });
    if kernel_handles(inner, 19, limit) {
        lemma_signal_bits(b, s as u32, 19);
    } else {
        assert(b ^ 0u32 == b) by (bit_vector);
    }
    if kernel_handles(inner, 18, limit) {
        lemma_signal_bits(b1, s as u32, 18);
    } else {
        assert(b1 ^ 0u32 == b1) by (bit_vector);
    }
}

/// What `check_pending_signals` makes of the task state `a`: the kernel
/// signals below the first signal for a user handler are handled, and that
/// handler, if set, is started.
pub open spec fn pending_signals_handled<F>(a: TaskControlBlockInner<F>, b: TaskControlBlockInner<F>) -> bool {
    let u = first_user_signal(a);
    let starts = u <= MAX_SIG && a.signal_actions.table[u].handler != 0;
    &&& same_but_signal_state(a, b)
    &&& b.frozen == frozen_after_kernel(a, u)
    &&& b.killed == killed_after_kernel(a, u)
    &&& b.signals.bits == bits_after_kernel(a, u) ^ (if starts {
        1u32 << (u as u32)
    } else {
        0u32
    })
    &&& starts ==> {
        &&& b.handling_sig == u
        &&& b.trap_ctx_backup == Some(a.trap_cx)
        &&& b.trap_cx.sepc == a.signal_actions.table[u].handler
        &&& b.trap_cx.x@ == a.trap_cx.x@.update(10, u as usize)
        &&& b.trap_cx.sstatus == a.trap_cx.sstatus
        &&& b.trap_cx.kernel_satp == a.trap_cx.kernel_satp
        &&& b.trap_cx.kernel_sp == a.trap_cx.kernel_sp
        &&& b.trap_cx.trap_handler == a.trap_cx.trap_handler
    }
    &&& !starts ==> {
        &&& b.handling_sig == a.handling_sig
        &&& b.trap_ctx_backup == a.trap_ctx_backup
        &&& b.trap_cx == a.trap_cx
    }
}

/// Delivers the pending signals in order of their numbers: each deliverable
/// kernel signal is handled on the spot, and the first deliverable signal
/// for a user handler ends the scan, starting that handler if it is set.
fn check_pending_signals<F>(inner: &mut TaskControlBlockInner<F>)
    requires
        old(inner).wf(),
    ensures
        final(inner).wf(),
        pending_signals_handled(*old(inner), *final(inner)),
{
    let ghost init = *inner;
    let ghost u = first_user_signal(init);
    let mut sig: usize = 0;
    proof {
        let b = init.signals.bits;
        assert(b ^ 0u32 ^ 0u32 == b) by (bit_vector);
    }
    while sig < MAX_SIG + 1
        invariant
            sig <= MAX_SIG + 1,
            init == *old(inner),
            init.wf(),
            inner.wf(),
            u == first_user_signal(init),
            first_user_signal_from(init, sig as int) == u,
            same_but_signal_state(init, *inner),
            inner.handling_sig == init.handling_sig,
            inner.trap_cx == init.trap_cx,
            inner.trap_ctx_backup == init.trap_ctx_backup,
            inner.signals.bits == bits_after_kernel(init, sig as int),
            inner.frozen == frozen_after_kernel(init, sig as int),
            inner.killed == killed_after_kernel(init, sig as int),
        decreases MAX_SIG + 1 - sig,
    {
        let signal = SignalFlags::from_bits(1u32 << (sig as u32)).unwrap();
        let ghost cur = *inner;
        proof {
            lemma_bits_after_kernel(init, sig as int, sig as int);
            lemma_first_user_signal_from_bounds(init, sig as int + 1);
            lemma_signal_bits(cur.signals.bits, sig as u32, 9);
            lemma_signal_bits(cur.signals.bits, sig as u32, 19);
            lemma_signal_bits(cur.signals.bits, sig as u32, 18);
            lemma_signal_bits(cur.signals.bits, sig as u32, 0);
            assert(cur.signals.has_signal(sig as int) == init.signals.has_signal(sig as int));
            assert(deliverable(cur, sig as int) == deliverable(init, sig as int));
        }
        if inner.signals.contains(signal) && !inner.signal_mask.contains(signal) {
            let mut masked = true;
            let handling_sig = inner.handling_sig;
            if handling_sig == -1 {
                masked = false;
            } else {
                let handling_sig = handling_sig as usize;
                if !inner.signal_actions.table[handling_sig].mask.contains(signal) {
                    masked = false;
                }
            }
            if !masked {
                assert(deliverable(init, sig as int));
                assert(1u32 << 0u32 == 1u32) by (bit_vector);
                if signal == SignalFlags::SIGKILL() || signal == SignalFlags::SIGSTOP()
                    || signal == SignalFlags::SIGCONT() || signal == SignalFlags::SIGDEF() {
                    assert(is_kernel_signal(sig as int));
                    assert(sig < u);
                    call_kernel_signal_handler(inner, signal);
                    proof {
                        lemma_signal_bits(cur.signals.bits, 18, 19);
                        lemma_signal_bits(cur.signals.bits, 19, 18);
                        let nb = (sig + 1) as int;
                        if sig == 19 {
                            assert(kernel_handles(init, 19, nb));
                        } else if sig == 18 {
                            assert(kernel_handles(init, 18, nb));
                            assert(cur.signals.spec_contains(signal));
                        }
                        let b = init.signals.bits;
                        let x18 = if kernel_handles(init, 18, sig as int) { 1u32 << 18u32 } else { 0u32 };
                        let x19 = if kernel_handles(init, 19, sig as int) { 1u32 << 19u32 } else { 0u32 };
                        if sig == 19 {
                            assert(x19 == 0u32);
                            assert((b ^ 0u32 ^ x18) ^ (1u32 << 19u32) == b ^ (1u32 << 19u32) ^ x18) by (bit_vector);
                        } else if sig == 18 {
                            assert(x19 == 0u32 && x18 == 0u32);
                            assert((b ^ 0u32 ^ 0u32) ^ (1u32 << 18u32) == b ^ 0u32 ^ (1u32 << 18u32)) by (bit_vector);
                        }
                        assert(inner.signals.bits == bits_after_kernel(init, nb));
                        assert(inner.frozen == frozen_after_kernel(init, nb));
                        assert(inner.killed == killed_after_kernel(init, nb));
                    }
                } else {
                    assert(!is_kernel_signal(sig as int));
                    assert(sig == u);
                    call_user_signal_handler(inner, sig, signal);
                    proof {
                        assert((u as usize) == sig);
                        assert((u as u32) == (sig as u32));
                        assert(inner.frozen == frozen_after_kernel(init, u));
                        assert(inner.killed == killed_after_kernel(init, u));
                        let x = cur.signals.bits;
                        assert(x ^ 0u32 == x) by (bit_vector);
                    }
                    return;
                }
            } else {
                assert(!deliverable(init, sig as int));
            }
        } else {
            assert(!deliverable(init, sig as int));
        }
        sig = sig + 1;
    }
    proof {
        let x = inner.signals.bits;
        assert(x ^ 0u32 == x) by (bit_vector);
    }
}


/// Handles the pending signals of the task, then says whether the task must
/// be suspended: it is frozen and not killed. The caller suspends it and
/// handles its signals again when it runs, until this is false.
pub fn handle_signals<F>(inner: &mut TaskControlBlockInner<F>) -> (suspend: bool)
    requires
        old(inner).wf(),
    ensures
        final(inner).wf(),
        pending_signals_handled(*old(inner), *final(inner)),
        suspend == (final(inner).frozen && !final(inner).killed),
{
    check_pending_signals(inner);
    let frozen = inner.frozen;
    let killed = inner.killed;
    frozen && !killed
}

/// Adds `signal` to the pending signals of the task.
pub fn current_add_signal<F>(inner: &mut TaskControlBlockInner<F>, signal: SignalFlags)
    ensures
        *final(inner) == (TaskControlBlockInner {
            signals: SignalFlags { bits: old(inner).signals.bits | signal.bits },
            ..*old(inner)
        }),
{
    inner.signals.insert(signal);
}

/// The exit code and message of the first fatal signal pending for the task.
pub fn check_signals_error_of_current<F>(inner: &TaskControlBlockInner<F>) -> (r: Option<(i32, &'static str)>)
    ensures
        match (r, inner.signals.spec_check_error()) {
            (None, None) => true,
            (Some(x), Some(y)) => x.0 == y.0 && x.1@ == y.1,
            _ => false,
        },
{
    inner.signals.check_error()
}


/// A pending signal that the task masks is still pending once the pending
/// signals are handled.
pub proof fn lemma_masked_signal_stays_pending<F>(
    a: TaskControlBlockInner<F>,
    b: TaskControlBlockInner<F>,
    sig: int,
)
    requires
        pending_signals_handled(a, b),
        0 <= sig <= MAX_SIG,
        a.signals.has_signal(sig),
        a.signal_mask.has_signal(sig),
    ensures
        b.signals.has_signal(sig),
{
    let u = first_user_signal(a);
    let s = sig as u32;
    lemma_bits_after_kernel(a, 0, sig);
    let x = bits_after_kernel(a, u);
    let b0 = a.signals.bits;
    let b1 = b0 ^ (if kernel_handles(a, 19, u) { 1u32 << 19u32 } else { 0u32 });
    if kernel_handles(a, 19, u) {
        lemma_signal_bits(b0, s, 19);
    } else {
        assert(b0 ^ 0u32 == b0) by (bit_vector);
    }
    if kernel_handles(a, 18, u) {
        lemma_signal_bits(b1, s, 18);
    } else {
        assert(b1 ^ 0u32 == b1) by (bit_vector);
    }
    assert((x & (1u32 << s)) == (b0 & (1u32 << s)));
    let starts = u <= MAX_SIG && a.signal_actions.table[u].handler != 0;
    if starts {
        lemma_first_user_signal_is_deliverable(a, 0);
        lemma_first_user_signal_from_bounds(a, 0);
        assert(u != sig);
        lemma_signal_bits(x, s, u as u32);
    } else {
        assert(x ^ 0u32 == x) by (bit_vector);
    }
}

proof fn lemma_first_user_signal_is_deliverable<F>(inner: TaskControlBlockInner<F>, from: int)
    requires
        0 <= from,
    ensures
        first_user_signal_from(inner, from) <= MAX_SIG ==> deliverable(
            inner,
            first_user_signal_from(inner, from),
        ) && !is_kernel_signal(first_user_signal_from(inner, from)),
    decreases MAX_SIG + 1 - from,
{
    if from <= MAX_SIG {
        lemma_first_user_signal_is_deliverable(inner, from + 1);
    }
}

/// A signal added to the task is pending.
pub proof fn lemma_added_signal_pending(pending: SignalFlags, signal: SignalFlags)
    ensures
        (SignalFlags { bits: pending.bits | signal.bits }).spec_contains(signal),
        (SignalFlags { bits: pending.bits | signal.bits }).spec_contains(pending),
{
    let p = pending.bits;
    let q = signal.bits;
    assert(((p | q) & q) == q && ((p | q) & p) == p) by (bit_vector);
}


proof fn lemma_no_deliverable_between<F>(inner: TaskControlBlockInner<F>, from: int, to: int)
    requires
        0 <= from <= to <= MAX_SIG + 1,
        forall|s: int| from <= s < to ==> !#[trigger] deliverable(inner, s),
    ensures
        first_user_signal_from(inner, from) == first_user_signal_from(inner, to),
    decreases to - from,
{
    if from < to {
        lemma_no_deliverable_between(inner, from + 1, to);
    }
}

/// The lowest pending signal that neither the task's mask nor the mask of
/// the action of the handler that runs (if one does) holds is delivered:
/// SIGKILL and SIGDEF kill the task, SIGSTOP freezes it, SIGCONT thaws it
/// (when no SIGSTOP is pending), and any other signal starts its user
/// handler when one is set, or stays pending when none is. Signals are given
/// by their raw bits.
pub proof fn lemma_lowest_unmasked_signal_delivered<F>(
    a: TaskControlBlockInner<F>,
    b: TaskControlBlockInner<F>,
    sig: u32,
)
    requires
        pending_signals_handled(a, b),
        a.wf(),
        sig <= 31,
        a.signals.bits & (1u32 << sig) != 0u32,
        a.signal_mask.bits & (1u32 << sig) == 0u32,
        a.handling_sig == -1 || a.signal_actions.table[a.handling_sig as int].mask.bits & (1u32 << sig)
            == 0u32,
        forall|s: int| 0 <= s < sig ==> #[trigger] (a.signals.bits & (1u32 << (s as u32))) == 0u32,
    ensures
        (sig == 0 || sig == 9) ==> b.killed,
        sig == 19 ==> b.frozen,
        sig == 18 && a.signals.bits & (1u32 << 19u32) == 0u32 ==> !b.frozen && b.signals.bits & (1u32
            << 18u32) == 0u32,
        sig != 0 && sig != 9 && sig != 18 && sig != 19 ==> {
            let handler = a.signal_actions.table[sig as int].handler;
            &&& handler != 0 ==> {
                &&& b.handling_sig == sig
                &&& b.trap_cx.sepc == handler
                &&& b.trap_cx.x@[10] == sig as usize
                &&& b.trap_ctx_backup == Some(a.trap_cx)
                &&& b.signals.bits & (1u32 << sig) == 0u32
            }
            &&& handler == 0 ==> {
                &&& b.handling_sig == a.handling_sig
                &&& b.trap_cx == a.trap_cx
                &&& b.signals.bits & (1u32 << sig) != 0u32
            }
        },
{
    let bits = a.signals.bits;
    assert forall|s: int| 0 <= s < sig implies !#[trigger] deliverable(a, s) by {
        let t = s as u32;
        assert(bits & (1u32 << t) == 0u32);
        lemma_signal_bits(bits, t, t);
    }
    lemma_no_deliverable_between(a, 0, sig as int);
    lemma_signal_bits(bits, sig, sig);
    let m = a.signal_mask.bits;
    assert((m & (1u32 << sig)) == 0u32 ==> (m & (1u32 << sig)) != (1u32 << sig)) by (bit_vector)
        requires
            sig < 32,
    ;
    assert((bits & (1u32 << sig)) != 0u32 ==> (bits & (1u32 << sig)) == (1u32 << sig)) by (bit_vector)
        requires
            sig < 32,
    ;
    if a.handling_sig != -1 {
        let hm = a.signal_actions.table[a.handling_sig as int].mask.bits;
        assert((hm & (1u32 << sig)) == 0u32 ==> (hm & (1u32 << sig)) != (1u32 << sig)) by (bit_vector)
            requires
                sig < 32,
        ;
    }
    assert(deliverable(a, sig as int));
    let u = first_user_signal(a);
    lemma_first_user_signal_from_bounds(a, sig as int + 1);
    lemma_first_user_signal_from_bounds(a, 0);
    if is_kernel_signal(sig as int) {
        assert(u == first_user_signal_from(a, sig as int + 1));
        assert(kernel_handles(a, sig as int, u));
        if sig == 18 && bits & (1u32 << 19u32) == 0u32 {
            lemma_signal_bits(bits, 19, 19);
            assert(!a.signals.has_signal(19));
            assert(!kernel_handles(a, 19, u));
            lemma_signal_bits(bits, 18, 18);
            lemma_signal_bits(bits, 18, 19);
            let x = bits ^ 0u32 ^ (1u32 << 18u32);
            assert(x == bits_after_kernel(a, u));
            assert(bits & (1u32 << 18u32) != 0u32 ==> (bits ^ 0u32 ^ (1u32 << 18u32)) & (1u32 << 18u32)
                == 0u32) by (bit_vector);
            assert(x & (1u32 << 18u32) == 0u32);
            if u <= MAX_SIG && a.signal_actions.table[u].handler != 0 {
                lemma_first_user_signal_is_deliverable(a, 0);
                assert(u != 18);
                lemma_signal_bits(x, 18, u as u32);
            } else {
                assert(x ^ 0u32 == x) by (bit_vector);
            }
        }
    } else {
        assert(u == sig);
        let handler = a.signal_actions.table[sig as int].handler;
        let x = bits_after_kernel(a, u);
        lemma_bits_after_kernel(a, u, u);
        if handler != 0 {
            assert((x & (1u32 << sig)) == (bits & (1u32 << sig)));
            assert((x & (1u32 << sig)) != 0u32 ==> ((x ^ (1u32 << sig)) & (1u32 << sig)) == 0u32)
                by (bit_vector)
                requires
                    sig < 32,
            ;
        } else {
            assert(x ^ 0u32 == x) by (bit_vector);
        }
    }
}

} // verus!
