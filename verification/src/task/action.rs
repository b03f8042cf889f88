//! What a task does on each signal: the user handler and the signals masked
//! while it runs.
use vstd::prelude::*;
use super::signal::{SignalFlags, MAX_SIG};

verus! {

/// The handler address of a signal (0 for none) and the signals masked while
/// that handler runs.
#[derive(Clone, Copy)]
pub struct SignalAction {
    pub handler: usize,
    pub mask: SignalFlags,
}

/// The mask of a signal action that has not been set: SIGQUIT and SIGTRAP.
pub const DEFAULT_ACTION_MASK: u32 = 40;

impl Default for SignalAction {
    fn default() -> (a: Self)
        ensures
            a.handler == 0,
            a.mask.bits == DEFAULT_ACTION_MASK,
    {
        SignalAction { handler: 0, mask: SignalFlags { bits: DEFAULT_ACTION_MASK } }
    }
}

/// The action of every signal, indexed by signal number.
#[derive(Clone, Copy)]
pub struct SignalActions {
    pub table: [SignalAction; 32],
}

impl Default for SignalActions {
    fn default() -> (a: Self)
        ensures
            forall|i: int|
                0 <= i <= MAX_SIG ==> (#[trigger] a.table[i]).handler == 0
                    && a.table[i].mask.bits == DEFAULT_ACTION_MASK,
    {
        let action = SignalAction::default();
        SignalActions { table: [action; 32] }
    }
}

} // verus!
